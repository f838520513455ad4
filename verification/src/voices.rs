//! Voice discovery: which files of the models directory are voice models, what
//! the voices are called, and in which order they are offered.
//!
//! The directory walk itself (one level of language directories, each holding
//! model files) is input and output; the library receives the files it found.

use vstd::prelude::*;
use vstd::multiset::Multiset;
use std::path::PathBuf;
use crate::text::{chars_le, str_eq, str_le};
use crate::text::{lemma_chars_le_antisymmetric, lemma_chars_le_reflexive};
use crate::text::{lemma_chars_le_total, lemma_chars_le_transitive};

verus! {

broadcast use vstd::seq_lib::group_seq_properties;

/// The standard library's `PathBuf`, declared so that a voice can carry the
/// path of its model as the operating system gave it. Verus sees nothing
/// inside a path; the library only moves paths from files to voices.
#[verifier::external_type_specification]
#[verifier::external_body]
pub struct ExPathBuf(PathBuf);

/// A voice: the model's file stem as display name, and the path of the model.
#[derive(Debug)]
pub struct Voice {
    pub name: String,
    pub model_path: PathBuf,
}

/// A file found in one of the language directories of the models directory.
#[derive(Debug)]
pub struct ModelFile {
    /// The last component of the path.
    pub file_name: String,
    /// The full path of the file.
    pub path: PathBuf,
}

/// A voice as its contracts see it: the characters of its name, and its
/// model's path.
pub struct VoiceView {
    pub name: Seq<char>,
    pub model_path: PathBuf,
}

impl View for Voice {
    type V = VoiceView;

    open spec fn view(&self) -> VoiceView {
        VoiceView { name: self.name@, model_path: self.model_path }
    }
}

/// The voices of a list, as their contracts see them.
pub open spec fn voice_views(voices: Seq<Voice>) -> Seq<VoiceView> {
    voices.map_values(|v: Voice| v@)
}

/// The extension that marks a voice model.
pub open spec fn model_extension() -> Seq<char> {
    seq!['o', 'n', 'n', 'x']
}

/// The index of the last `.` in `s`, or -1 when there is none.
pub open spec fn last_dot(s: Seq<char>) -> int
    decreases s.len(),
{
    if s.len() == 0 {
        -1
    } else if s.last() == '.' {
        s.len() - 1
    } else {
        last_dot(s.drop_last())
    }
}

/// Whether a file name splits into a stem and an extension, as `Path` splits
/// it: there is a `.` after the first character, and the name is not `..`.
pub open spec fn has_extension(name: Seq<char>) -> bool {
    name != seq!['.', '.'] && last_dot(name) > 0
}

/// The extension of a file name, as `Path::extension` gives it: what follows
/// the last `.`, where the name has one after its first character.
pub open spec fn file_extension(name: Seq<char>) -> Option<Seq<char>> {
    if has_extension(name) {
        Some(name.subrange(last_dot(name) + 1, name.len() as int))
    } else {
        None
    }
}

/// The stem of a file name, as `Path::file_stem` gives it: what precedes the
/// last `.`, or the whole name where it has no extension.
pub open spec fn file_stem(name: Seq<char>) -> Seq<char> {
    if has_extension(name) {
        name.subrange(0, last_dot(name))
    } else {
        name
    }
}

/// Whether a file is a voice model: its extension is `onnx`.
pub open spec fn is_voice_model(file: ModelFile) -> bool {
    file_extension(file.file_name@) == Some(model_extension())
}

/// The voice that a model file provides.
pub open spec fn voice_of(file: ModelFile) -> VoiceView {
    VoiceView { name: file_stem(file.file_name@), model_path: file.path }
}

/// The voices of the model files among `files`, in the order of `files`.
pub open spec fn model_voices(files: Seq<ModelFile>) -> Seq<VoiceView>
    decreases files.len(),
{
    if files.len() == 0 {
        seq![]
    } else {
        let rest = model_voices(files.drop_last());
        if is_voice_model(files.last()) {
            rest.push(voice_of(files.last()))
        } else {
            rest
        }
    }
}

/// Voices in ascending order of their names.
pub open spec fn sorted_by_name(voices: Seq<VoiceView>) -> bool {
    forall|i: int, j: int|
        0 <= i < j < voices.len() ==> chars_le(#[trigger] voices[i].name, #[trigger] voices[j].name)
}

/// Whether a voice has the given name.
pub open spec fn name_is(name: Seq<char>) -> spec_fn(VoiceView) -> bool {
    |v: VoiceView| v.name == name
}

/// The voices of a list that have the given name, in list order.
pub open spec fn named(voices: Seq<VoiceView>, name: Seq<char>) -> Seq<VoiceView> {
    voices.filter(name_is(name))
}

/// The voice list that `discover_voices` gives for `files`: the model files'
/// voices, sorted by name; voices of equal name keep the order of `files`.
pub open spec fn is_voice_listing(voices: Seq<VoiceView>, files: Seq<ModelFile>) -> bool {
    &&& sorted_by_name(voices)
    &&& forall|name: Seq<char>| #[trigger] named(voices, name) == named(model_voices(files), name)
}

proof fn lemma_last_dot_after(stem: Seq<char>, ext: Seq<char>)
    requires
        !ext.contains('.'),
    ensures
        last_dot(stem + seq!['.'] + ext) == stem.len(),
    decreases ext.len(),
{
    let n = stem + seq!['.'] + ext;
    if ext.len() == 0 {
        assert(n.last() == '.');
    } else {
        assert(n.last() == ext.last());
        assert(ext.contains(ext.last()) ==> ext.last() != '.');
        assert(ext.contains(ext[ext.len() - 1]));
        let shorter = ext.drop_last();
        assert(!shorter.contains('.')) by {
            if shorter.contains('.') {
                let i = choose|i: int| 0 <= i < shorter.len() && shorter[i] == '.';
                assert(ext[i] == '.');
            }
        }
        assert(n.drop_last() =~= stem + seq!['.'] + shorter);
        lemma_last_dot_after(stem, shorter);
    }
}

/// A file name is split at its last `.`: with a non-empty stem before it and
/// an extension without `.` after it, the extension is what follows and the
/// stem what precedes, however long either is. (The one exception is the
/// name `..`, which has no extension.)
pub proof fn lemma_name_splits_at_last_dot(stem: Seq<char>, ext: Seq<char>)
    requires
        stem.len() > 0,
        !ext.contains('.'),
        !(stem == seq!['.'] && ext.len() == 0),
    ensures
        file_extension(stem + seq!['.'] + ext) == Some(ext),
        file_stem(stem + seq!['.'] + ext) == stem,
{
    let n = stem + seq!['.'] + ext;
    lemma_last_dot_after(stem, ext);
    if n == seq!['.', '.'] {
        assert(n.len() == 2);
        assert(stem.len() == 1 && ext.len() == 0);
        assert(stem[0] == n[0]);
        assert(stem =~= seq!['.']);
    }
    assert(n.subrange(stem.len() as int + 1, n.len() as int) =~= ext);
    assert(n.subrange(0, stem.len() as int) =~= stem);
}

/// A name without `.` has no extension and is its own stem.
pub proof fn lemma_name_without_dot(name: Seq<char>)
    requires
        !name.contains('.'),
    ensures
        file_extension(name) == None::<Seq<char>>,
        file_stem(name) == name,
    decreases name.len(),
{
    if name.len() > 0 {
        assert(name.contains(name[name.len() - 1]));
        let shorter = name.drop_last();
        assert(!shorter.contains('.')) by {
            if shorter.contains('.') {
                let i = choose|i: int| 0 <= i < shorter.len() && shorter[i] == '.';
                assert(name[i] == '.');
            }
        }
        lemma_name_without_dot(shorter);
        assert(name != seq!['.', '.']) by {
            if name == seq!['.', '.'] {
                assert(name[0] == '.');
            }
        }
    }
}

/// Every file named `<stem>.onnx`, with a non-empty stem of any length, is a
/// voice model named after its stem.
pub proof fn lemma_onnx_files_are_models(stem: Seq<char>, path: PathBuf, file: ModelFile)
    requires
        stem.len() > 0,
        file.file_name@ == stem + seq!['.', 'o', 'n', 'n', 'x'],
        file.path == path,
    ensures
        is_voice_model(file),
        voice_of(file) == (VoiceView { name: stem, model_path: path }),
        model_extension() == seq!['o', 'n', 'n', 'x'],
{
    let ext = seq!['o', 'n', 'n', 'x'];
    assert(!ext.contains('.')) by {
        if ext.contains('.') {
            let i = choose|i: int| 0 <= i < ext.len() && ext[i] == '.';
        }
    }
    assert(stem + seq!['.', 'o', 'n', 'n', 'x'] =~= stem + seq!['.'] + ext);
    lemma_name_splits_at_last_dot(stem, ext);
}

/// A name whose only `.` is its first character (such as `.onnx`) has no
/// extension and is its own stem.
pub proof fn lemma_leading_dot_is_no_extension(rest: Seq<char>)
    requires
        !rest.contains('.'),
    ensures
        file_extension(seq!['.'] + rest) == None::<Seq<char>>,
        file_stem(seq!['.'] + rest) == seq!['.'] + rest,
{
    lemma_last_dot_after(Seq::<char>::empty(), rest);
    assert(Seq::<char>::empty() + seq!['.'] + rest =~= seq!['.'] + rest);
}

/// The voices of a list of files are those of its voice model files, in
/// order: each model file gives the voice named after its stem, and no other
/// file gives a voice.
pub proof fn lemma_model_voices_are_the_models(files: Seq<ModelFile>)
    ensures
        model_voices(files) == files.filter(|f: ModelFile| is_voice_model(f)).map_values(
            |f: ModelFile| voice_of(f),
        ),
    decreases files.len(),
{
    let pred = |f: ModelFile| is_voice_model(f);
    let to_voice = |f: ModelFile| voice_of(f);
    if files.len() == 0 {
        assert(files.filter(pred) =~= Seq::<ModelFile>::empty());
        assert(files.filter(pred).map_values(to_voice) =~= Seq::<VoiceView>::empty());
    } else {
        let init = files.drop_last();
        lemma_model_voices_are_the_models(init);
        assert(files =~= init.push(files.last()));
        init.lemma_filter_push(files.last(), pred);
        if is_voice_model(files.last()) {
            assert(init.filter(pred).push(files.last()).map_values(to_voice) =~= init.filter(
                pred,
            ).map_values(to_voice).push(voice_of(files.last())));
        }
    }
}

fn last_dot_index(name: &str) -> (r: Option<usize>)
    ensures
        match r {
            Some(i) => i == last_dot(name@) && i < name@.len(),
            None => last_dot(name@) == -1,
        },
{
    let mut i = name.unicode_len();
    assert(name@.subrange(0, i as int) =~= name@);
    while i > 0
        invariant
            i <= name@.len(),
            last_dot(name@) == last_dot(name@.subrange(0, i as int)),
        decreases i,
    {
        if name.get_char(i - 1) == '.' {
            return Some(i - 1);
        }
        assert(name@.subrange(0, i as int).drop_last() =~= name@.subrange(0, i - 1));
        i = i - 1;
    }
    None
}

fn is_dot_dot(name: &str) -> (r: bool)
    ensures
        r == (name@ == seq!['.', '.']),
{
    if name.unicode_len() == 2 && name.get_char(0) == '.' && name.get_char(1) == '.' {
        assert(name@ =~= seq!['.', '.']);
        true
    } else {
        false
    }
}

/// Whether a file name has the voice model extension.
pub fn has_model_extension(file_name: &str) -> (r: bool)
    ensures
        r == (file_extension(file_name@) == Some(model_extension())),
{
    if is_dot_dot(file_name) {
        return false;
    }
    match last_dot_index(file_name) {
        None => false,
        Some(i) => {
            if i == 0 {
                false
            } else {
                let len = file_name.unicode_len();
                let extension = file_name.substring_char(i + 1, len);
                proof {
                    reveal_strlit("onnx");
                }
                let r = str_eq(extension, "onnx");
                assert("onnx"@ =~= model_extension());
                r
            }
        },
    }
}

/// The stem of a file name.
pub fn stem_of(file_name: &str) -> (r: String)
    ensures
        r@ == file_stem(file_name@),
{
    if is_dot_dot(file_name) {
        return String::from_str(file_name);
    }
    match last_dot_index(file_name) {
        None => String::from_str(file_name),
        Some(i) => {
            if i == 0 {
                String::from_str(file_name)
            } else {
                String::from_str(file_name.substring_char(0, i))
            }
        },
    }
}


proof fn lemma_insert_keeps_sorted(voices: Seq<VoiceView>, pos: int, v: VoiceView)
    requires
        sorted_by_name(voices),
        0 <= pos <= voices.len(),
        forall|j: int| 0 <= j < pos ==> chars_le(#[trigger] voices[j].name, v.name),
        forall|j: int| pos <= j < voices.len() ==> !chars_le(#[trigger] voices[j].name, v.name),
    ensures
        sorted_by_name(voices.insert(pos, v)),
{
    let r = voices.insert(pos, v);
    assert forall|i: int, j: int| 0 <= i < j < r.len() implies chars_le(
        #[trigger] r[i].name,
        #[trigger] r[j].name,
    ) by {
        if j < pos {
            assert(r[i] == voices[i] && r[j] == voices[j]);
        } else if j == pos {
            assert(r[i] == voices[i]);
        } else if i > pos {
            assert(r[i] == voices[i - 1] && r[j] == voices[j - 1]);
        } else if i == pos {
            assert(r[j] == voices[j - 1]);
            lemma_chars_le_total(voices[j - 1].name, v.name);
        } else {
            assert(r[i] == voices[i] && r[j] == voices[j - 1]);
            lemma_chars_le_total(voices[j - 1].name, v.name);
            lemma_chars_le_transitive(voices[i].name, v.name, voices[j - 1].name);
        }
    }
}

proof fn lemma_insert_named(voices: Seq<VoiceView>, pos: int, v: VoiceView, name: Seq<char>)
    requires
        0 <= pos <= voices.len(),
        forall|j: int| pos <= j < voices.len() ==> !chars_le(#[trigger] voices[j].name, v.name),
    ensures
        named(voices.insert(pos, v), name) == if v.name == name {
            named(voices, name).push(v)
        } else {
            named(voices, name)
        },
{
    let pred = name_is(name);
    let front = voices.take(pos);
    let back = voices.skip(pos);
    assert(voices =~= front + back);
    assert(voices.insert(pos, v) =~= front.push(v) + back);
    assert(named(voices, name) == front.filter(pred) + back.filter(pred));
    assert(named(voices.insert(pos, v), name) == front.push(v).filter(pred) + back.filter(pred));
    front.lemma_filter_push(v, pred);
    if v.name == name {
        assert forall|j: int| 0 <= j < back.len() implies !pred(#[trigger] back[j]) by {
            assert(back[j] == voices[pos + j]);
            lemma_chars_le_reflexive(v.name);
        }
        back.lemma_all_neg_filter_empty(pred);
        assert(back.filter(pred) =~= Seq::<VoiceView>::empty());
        assert(named(voices.insert(pos, v), name) =~= named(voices, name).push(v));
    } else {
        assert(named(voices.insert(pos, v), name) =~= named(voices, name));
    }
}

/// Where a voice named `name` goes in a sorted list so that the list stays
/// sorted and the voice comes after every voice of the same name.
fn insertion_point(voices: &Vec<Voice>, name: &String) -> (pos: usize)
    requires
        sorted_by_name(voice_views(voices@)),
    ensures
        pos <= voices@.len(),
        forall|j: int| 0 <= j < pos ==> chars_le(#[trigger] voices@[j].name@, name@),
        forall|j: int| pos <= j < voices@.len() ==> !chars_le(#[trigger] voices@[j].name@, name@),
{
    let mut pos: usize = 0;
    while pos < voices.len()
        invariant
            pos <= voices@.len(),
            sorted_by_name(voice_views(voices@)),
            forall|j: int| 0 <= j < pos ==> chars_le(#[trigger] voices@[j].name@, name@),
        decreases voices@.len() - pos,
    {
        if !str_le(voices[pos].name.as_str(), name.as_str()) {
            assert forall|j: int| pos <= j < voices@.len() implies !chars_le(
                #[trigger] voices@[j].name@,
                name@,
            ) by {
                if j > pos && chars_le(voices@[j].name@, name@) {
                    let vs = voice_views(voices@);
                    assert(chars_le(vs[pos as int].name, vs[j].name));
                    lemma_chars_le_transitive(voices@[pos as int].name@, voices@[j].name@, name@);
                }
            }
            return pos;
        }
        pos = pos + 1;
    }
    pos
}

/// The voices of the model files among `files`, sorted by name.
///
/// A file is a voice model when its extension is `onnx`; the voice is named
/// after the file's stem. The order is that of a stable sort by name: voices
/// of equal name keep the order in which their files were found.
pub fn discover_voices(files: Vec<ModelFile>) -> (voices: Vec<Voice>)
    ensures
        is_voice_listing(voice_views(voices@), files@),
{
    let ghost all = files@;
    let mut voices: Vec<Voice> = Vec::new();
    for file in it: files
        invariant
            it.seq() == all,
            sorted_by_name(voice_views(voices@)),
            forall|name: Seq<char>| #[trigger]
                named(voice_views(voices@), name) == named(
                    model_voices(all.take(it.index() as int)),
                    name,
                ),
    {
        let ghost i = it.index() as int;
        assert(all.take(i + 1).drop_last() =~= all.take(i));
        assert(all.take(i + 1).last() == file);
        if has_model_extension(file.file_name.as_str()) {
            let voice = Voice { name: stem_of(file.file_name.as_str()), model_path: file.path };
            let pos = insertion_point(&voices, &voice.name);
            let ghost before = voice_views(voices@);
            let ghost v = voice@;
            assert(v == voice_of(file));
            voices.insert(pos, voice);
            assert(voice_views(voices@) =~= before.insert(pos as int, v));
            proof {
                assert forall|j: int| 0 <= j < pos implies chars_le(#[trigger] before[j].name, v.name) by {}
                assert forall|j: int| pos <= j < before.len() implies !chars_le(
                    #[trigger] before[j].name,
                    v.name,
                ) by {}
                lemma_insert_keeps_sorted(before, pos as int, v);
                assert forall|name: Seq<char>| #[trigger]
                    named(voice_views(voices@), name) == named(model_voices(all.take(i + 1)), name) by {
                    lemma_insert_named(before, pos as int, v, name);
                    model_voices(all.take(i)).lemma_filter_push(v, name_is(name));
                }
            }
        } else {
            assert(model_voices(all.take(i + 1)) == model_voices(all.take(i)));
        }
    }
    assert(all.take(all.len() as int) =~= all);
    voices
}

proof fn lemma_filter_count(s: Seq<VoiceView>, pred: spec_fn(VoiceView) -> bool, x: VoiceView)
    ensures
        s.filter(pred).to_multiset().count(x) == if pred(x) {
            s.to_multiset().count(x)
        } else {
            0
        },
    decreases s.len(),
{
    broadcast use vstd::multiset::group_multiset_axioms;
    broadcast use vstd::seq_lib::to_multiset_build;

    if s.len() == 0 {
        assert(s.filter(pred) =~= Seq::<VoiceView>::empty());
        assert(s.to_multiset() =~= Multiset::<VoiceView>::empty());
        assert(s.filter(pred).to_multiset() =~= Multiset::<VoiceView>::empty());
    } else {
        let init = s.drop_last();
        lemma_filter_count(init, pred, x);
        assert(s =~= init.push(s.last()));
        init.lemma_filter_push(s.last(), pred);
    }
}

/// A voice listing holds each voice of a model file exactly once, and nothing
/// else: it is a rearrangement of the model files' voices.
pub proof fn lemma_listing_is_rearrangement(voices: Seq<VoiceView>, files: Seq<ModelFile>)
    requires
        is_voice_listing(voices, files),
    ensures
        voices.to_multiset() == model_voices(files).to_multiset(),
{
    let expected = model_voices(files);
    assert forall|x: VoiceView| #[trigger] voices.to_multiset().count(x) == expected.to_multiset().count(
        x,
    ) by {
        lemma_filter_count(voices, name_is(x.name), x);
        lemma_filter_count(expected, name_is(x.name), x);
        assert(named(voices, x.name) == named(expected, x.name));
    }
    assert(voices.to_multiset() =~= expected.to_multiset());
}


proof fn lemma_named_drop_last(s: Seq<VoiceView>, name: Seq<char>)
    requires
        s.len() > 0,
    ensures
        named(s, name) == if s.last().name == name {
            named(s.drop_last(), name).push(s.last())
        } else {
            named(s.drop_last(), name)
        },
{
    assert(s =~= s.drop_last().push(s.last()));
    s.drop_last().lemma_filter_push(s.last(), name_is(name));
}

proof fn lemma_sorted_drop_last(s: Seq<VoiceView>)
    requires
        sorted_by_name(s),
        s.len() > 0,
    ensures
        sorted_by_name(s.drop_last()),
{
    let t = s.drop_last();
    assert forall|i: int, j: int| 0 <= i < j < t.len() implies chars_le(
        #[trigger] t[i].name,
        #[trigger] t[j].name,
    ) by {
        assert(t[i] == s[i] && t[j] == s[j]);
    }
}

/// In a sorted listing, any voice with a given name comes no later, by name,
/// than the last voice.
proof fn lemma_named_le_last(s: Seq<VoiceView>, name: Seq<char>)
    requires
        sorted_by_name(s),
        named(s, name).len() > 0,
    ensures
        chars_le(name, s.last().name),
{
    let f = named(s, name);
    assert(f.contains(f[0]));
    s.lemma_filter_contains_rev(name_is(name), f[0]);
    let k = choose|k: int| 0 <= k < s.len() && s[k] == f[0];
    s.lemma_filter_pred(name_is(name), 0);
    if k < s.len() - 1 {
        assert(chars_le(s[k].name, s[s.len() - 1].name));
    } else {
        lemma_chars_le_reflexive(name);
    }
}

/// Two listings that are sorted by name and agree on the voices of each name,
/// in order, are the same listing.
proof fn lemma_same_listing(a: Seq<VoiceView>, b: Seq<VoiceView>)
    requires
        sorted_by_name(a),
        sorted_by_name(b),
        forall|name: Seq<char>| #[trigger] named(a, name) == named(b, name),
    ensures
        a == b,
    decreases a.len() + b.len(),
{
    if a.len() == 0 || b.len() == 0 {
        if a.len() > 0 {
            lemma_named_drop_last(a, a.last().name);
            assert(named(b, a.last().name).len() > 0);
            b.lemma_filter_len(name_is(a.last().name));
        } else if b.len() > 0 {
            lemma_named_drop_last(b, b.last().name);
            assert(named(a, b.last().name).len() > 0);
            a.lemma_filter_len(name_is(b.last().name));
        }
        assert(a =~= b);
    } else {
        let x = a.last();
        let y = b.last();
        lemma_named_drop_last(a, x.name);
        lemma_named_drop_last(b, y.name);
        lemma_named_le_last(b, x.name);
        lemma_named_le_last(a, y.name);
        lemma_chars_le_antisymmetric(x.name, y.name);
        assert(named(a, x.name).last() == x);
        assert(named(b, y.name).last() == y);
        assert(x == y);
        lemma_sorted_drop_last(a);
        lemma_sorted_drop_last(b);
        assert forall|name: Seq<char>| #[trigger]
            named(a.drop_last(), name) == named(b.drop_last(), name) by {
            lemma_named_drop_last(a, name);
            lemma_named_drop_last(b, name);
            if name == x.name {
                assert(named(a, name).drop_last() =~= named(a.drop_last(), name));
                assert(named(b, name).drop_last() =~= named(b.drop_last(), name));
            }
        }
        lemma_same_listing(a.drop_last(), b.drop_last());
        assert(a =~= a.drop_last().push(x));
        assert(b =~= b.drop_last().push(y));
    }
}

/// The voice listing of a set of files is determined by the files: any two
/// listings of the same files are the same, so the order of the voices,
/// including that of voices of equal name, is fixed.
pub proof fn lemma_listing_is_determined(a: Seq<VoiceView>, b: Seq<VoiceView>, files: Seq<ModelFile>)
    requires
        is_voice_listing(a, files),
        is_voice_listing(b, files),
    ensures
        a == b,
{
    lemma_same_listing(a, b);
}


proof fn lemma_model_voices_concat(x: Seq<ModelFile>, y: Seq<ModelFile>)
    ensures
        model_voices(x + y) == model_voices(x) + model_voices(y),
    decreases y.len(),
{
    if y.len() == 0 {
        assert(x + y =~= x);
        assert(model_voices(x) + model_voices(y) =~= model_voices(x));
    } else {
        lemma_model_voices_concat(x, y.drop_last());
        assert((x + y).drop_last() =~= x + y.drop_last());
        assert((x + y).last() == y.last());
        if is_voice_model(y.last()) {
            assert(model_voices(x + y) =~= model_voices(x) + model_voices(y));
        } else {
            assert(model_voices(x + y) =~= model_voices(x) + model_voices(y));
        }
    }
}

proof fn lemma_model_voices_single(f: ModelFile)
    ensures
        model_voices(seq![f]) == if is_voice_model(f) {
            seq![voice_of(f)]
        } else {
            Seq::<VoiceView>::empty()
        },
{
    assert(seq![f].drop_last() =~= Seq::<ModelFile>::empty());
    assert(seq![f].last() == f);
    assert(model_voices(Seq::<ModelFile>::empty()) =~= Seq::<VoiceView>::empty());
    if is_voice_model(f) {
        assert(Seq::<VoiceView>::empty().push(voice_of(f)) =~= seq![voice_of(f)]);
    }
}

proof fn lemma_filter_single(x: VoiceView, pred: spec_fn(VoiceView) -> bool)
    ensures
        seq![x].filter(pred) == if pred(x) {
            seq![x]
        } else {
            Seq::<VoiceView>::empty()
        },
{
    Seq::<VoiceView>::empty().lemma_filter_push(x, pred);
    assert(Seq::<VoiceView>::empty().push(x) =~= seq![x]);
    assert(Seq::<VoiceView>::empty().filter(pred) =~= Seq::<VoiceView>::empty());
    assert(Seq::<VoiceView>::empty().push(x) =~= seq![x]);
}

/// The filter of a list splits around any of its positions.
proof fn lemma_filter_split(s: Seq<VoiceView>, pred: spec_fn(VoiceView) -> bool, q: int)
    requires
        0 <= q < s.len(),
    ensures
        s.filter(pred) == s.take(q).filter(pred) + seq![s[q]].filter(pred) + s.skip(q + 1).filter(
            pred,
        ),
        s.remove(q).filter(pred) == s.take(q).filter(pred) + s.skip(q + 1).filter(pred),
{
    assert(s =~= s.take(q) + seq![s[q]] + s.skip(q + 1));
    assert(s.remove(q) =~= s.take(q) + s.skip(q + 1));
    Seq::filter_distributes_over_add(s.take(q) + seq![s[q]], s.skip(q + 1), pred);
    Seq::filter_distributes_over_add(s.take(q), seq![s[q]], pred);
    Seq::filter_distributes_over_add(s.take(q), s.skip(q + 1), pred);
}

/// The element at position `m` of a filter sits at some position `q` of the
/// list, after exactly `m` elements that pass the filter.
proof fn lemma_filter_index(s: Seq<VoiceView>, pred: spec_fn(VoiceView) -> bool, m: int) -> (q: int)
    requires
        0 <= m < s.filter(pred).len(),
    ensures
        0 <= q < s.len(),
        pred(s[q]),
        s.take(q).filter(pred).len() == m,
        s[q] == s.filter(pred)[m],
    decreases s.len(),
{
    let t = s.drop_last();
    assert(s =~= t.push(s.last()));
    t.lemma_filter_push(s.last(), pred);
    if pred(s.last()) && m == t.filter(pred).len() {
        assert(s.take(s.len() - 1) =~= t);
        s.len() - 1
    } else {
        let q = lemma_filter_index(t, pred, m);
        assert(s.take(q) =~= t.take(q));
        q
    }
}

proof fn lemma_remove_keeps_sorted(s: Seq<VoiceView>, q: int)
    requires
        sorted_by_name(s),
        0 <= q < s.len(),
    ensures
        sorted_by_name(s.remove(q)),
{
    let t = s.remove(q);
    assert forall|i: int, j: int| 0 <= i < j < t.len() implies chars_le(
        #[trigger] t[i].name,
        #[trigger] t[j].name,
    ) by {
        let i2 = if i < q { i } else { i + 1 };
        let j2 = if j < q { j } else { j + 1 };
        assert(t[i] == s[i2] && t[j] == s[j2]);
    }
}

proof fn lemma_named_concat3(x: Seq<VoiceView>, y: Seq<VoiceView>, z: Seq<VoiceView>, name: Seq<char>)
    ensures
        named(x + y + z, name) == named(x, name) + named(y, name) + named(z, name),
{
    Seq::filter_distributes_over_add(x + y, z, name_is(name));
    Seq::filter_distributes_over_add(x, y, name_is(name));
}

/// Adding a file to those found: a voice model adds its voice to the listing
/// at some position, and leaves the other voices as they were; any other
/// file leaves the listing unchanged. Where the voice goes keeps the listing
/// sorted by name, since both listings are sorted.
pub proof fn lemma_adding_a_file(
    a: Seq<VoiceView>,
    b: Seq<VoiceView>,
    before: Seq<ModelFile>,
    after: Seq<ModelFile>,
    file: ModelFile,
)
    requires
        is_voice_listing(a, before + after),
        is_voice_listing(b, before + seq![file] + after),
    ensures
        is_voice_model(file) ==> exists|p: int|
            0 <= p <= a.len() && #[trigger] a.insert(p, voice_of(file)) == b,
        !is_voice_model(file) ==> b == a,
{
    let pre = model_voices(before);
    let mid = model_voices(seq![file]);
    let post = model_voices(after);
    lemma_model_voices_concat(before, after);
    lemma_model_voices_concat(before + seq![file], after);
    lemma_model_voices_concat(before, seq![file]);
    lemma_model_voices_single(file);
    assert(model_voices(before + after) == pre + post);
    assert(model_voices(before + seq![file] + after) == pre + mid + post);
    if !is_voice_model(file) {
        assert(pre + mid + post =~= pre + post);
        lemma_same_listing(b, a);
    } else {
        let v = voice_of(file);
        let k = v.name;
        assert forall|name: Seq<char>| #[trigger]
            named(b, name) == named(pre, name) + named(mid, name) + named(post, name) by {
            lemma_named_concat3(pre, mid, post, name);
        }
        assert forall|name: Seq<char>| #[trigger]
            named(a, name) == named(pre, name) + named(post, name) by {
            Seq::filter_distributes_over_add(pre, post, name_is(name));
        }
        lemma_filter_single(v, name_is(k));
        let m = named(pre, k).len() as int;
        let x = named(b, k);
        assert(x == named(pre, k) + seq![v] + named(post, k));
        assert(x[m] == v);
        let q = lemma_filter_index(b, name_is(k), m);
        let c = b.remove(q);
        lemma_remove_keeps_sorted(b, q);
        assert forall|name: Seq<char>| #[trigger] named(c, name) == named(a, name) by {
            lemma_filter_split(b, name_is(name), q);
            lemma_filter_single(b[q], name_is(name));
            if name == k {
                let t = b.take(q).filter(name_is(k));
                let u = b.skip(q + 1).filter(name_is(k));
                assert(x == t + seq![v] + u);
                assert(t =~= x.take(m));
                assert(u =~= x.skip(m + 1));
                assert(named(pre, k) =~= x.take(m));
                assert(named(post, k) =~= x.skip(m + 1));
            } else {
                lemma_filter_single(v, name_is(name));
                assert(seq![v].filter(name_is(name)) =~= Seq::<VoiceView>::empty());
                assert(named(c, name) =~= named(b, name));
                assert(named(b, name) =~= named(pre, name) + named(post, name));
            }
        }
        lemma_same_listing(c, a);
        assert(b =~= c.insert(q, v));
        assert(0 <= q <= a.len());
        assert(a.insert(q, voice_of(file)) == b);
    }
}


/// Files found in another order give voices of the same multiset.
proof fn lemma_model_voices_rearranged(files1: Seq<ModelFile>, files2: Seq<ModelFile>)
    requires
        files1.to_multiset() == files2.to_multiset(),
    ensures
        model_voices(files1).to_multiset() == model_voices(files2).to_multiset(),
    decreases files1.len(),
{
    broadcast use vstd::multiset::group_multiset_axioms;
    broadcast use vstd::seq_lib::lemma_multiset_commutative;

    if files1.len() == 0 {
        assert(files2.to_multiset().len() == 0);
        assert(files2.len() == 0);
        assert(files1 =~= files2);
    } else {
        let x = files1.last();
        let rest1 = files1.drop_last();
        assert(files1 =~= rest1.push(x));
        assert(files1.to_multiset().count(x) > 0);
        assert(files2.to_multiset().count(x) > 0);
        assert(files2.contains(x));
        let q = choose|q: int| 0 <= q < files2.len() && files2[q] == x;
        let rest2 = files2.remove(q);
        assert(rest1.to_multiset() =~= files1.to_multiset().remove(x));
        assert(rest2.to_multiset() =~= files2.to_multiset().remove(x));
        lemma_model_voices_rearranged(rest1, rest2);
        lemma_model_voices_concat(rest1, seq![x]);
        assert(rest1 + seq![x] =~= files1);
        let front = files2.take(q);
        let back = files2.skip(q + 1);
        assert(files2 =~= front + seq![x] + back);
        assert(rest2 =~= front + back);
        lemma_model_voices_concat(front + seq![x], back);
        lemma_model_voices_concat(front, seq![x]);
        lemma_model_voices_concat(front, back);
        let mx = model_voices(seq![x]);
        assert(model_voices(files1).to_multiset() =~= model_voices(rest1).to_multiset().add(
            mx.to_multiset(),
        ));
        assert(model_voices(files2).to_multiset() =~= model_voices(front).to_multiset().add(
            mx.to_multiset(),
        ).add(model_voices(back).to_multiset()));
        assert(model_voices(rest2).to_multiset() =~= model_voices(front).to_multiset().add(
            model_voices(back).to_multiset(),
        ));
    }
}

/// A listing with every path replaced by the same arbitrary one: what is left
/// are the names, in order.
spec fn names_only(s: Seq<VoiceView>) -> Seq<VoiceView> {
    s.map_values(|v: VoiceView| VoiceView { name: v.name, model_path: arbitrary() })
}

proof fn lemma_names_only_named(s: Seq<VoiceView>, name: Seq<char>)
    ensures
        named(names_only(s), name) == names_only(named(s, name)),
    decreases s.len(),
{
    if s.len() == 0 {
        assert(names_only(s) =~= Seq::<VoiceView>::empty());
        assert(named(s, name) =~= Seq::<VoiceView>::empty());
        assert(named(names_only(s), name) =~= Seq::<VoiceView>::empty());
        assert(names_only(named(s, name)) =~= Seq::<VoiceView>::empty());
    } else {
        let t = s.drop_last();
        lemma_names_only_named(t, name);
        assert(s =~= t.push(s.last()));
        t.lemma_filter_push(s.last(), name_is(name));
        let w = VoiceView { name: s.last().name, model_path: arbitrary() };
        assert(names_only(s) =~= names_only(t).push(w));
        names_only(t).lemma_filter_push(w, name_is(name));
        if s.last().name == name {
            assert(names_only(named(s, name)) =~= names_only(named(t, name)).push(w));
        }
    }
}

/// The same files found in another order give the same listing, up to the
/// order of voices of equal name: the names come in the same order, and each
/// name has the same voices.
pub proof fn lemma_walk_order_reorders_equal_names(
    a: Seq<VoiceView>,
    b: Seq<VoiceView>,
    files1: Seq<ModelFile>,
    files2: Seq<ModelFile>,
)
    requires
        files1.to_multiset() == files2.to_multiset(),
        is_voice_listing(a, files1),
        is_voice_listing(b, files2),
    ensures
        a.len() == b.len(),
        forall|i: int| 0 <= i < a.len() ==> #[trigger] a[i].name == b[i].name,
        forall|name: Seq<char>| #[trigger] named(a, name).to_multiset() == named(b, name).to_multiset(),
{
    broadcast use vstd::multiset::group_multiset_axioms;

    let m1 = model_voices(files1);
    let m2 = model_voices(files2);
    lemma_model_voices_rearranged(files1, files2);
    assert forall|name: Seq<char>| #[trigger] named(a, name).to_multiset() == named(
        b,
        name,
    ).to_multiset() by {
        assert forall|x: VoiceView| #[trigger] named(a, name).to_multiset().count(x) == named(
            b,
            name,
        ).to_multiset().count(x) by {
            lemma_filter_count(m1, name_is(name), x);
            lemma_filter_count(m2, name_is(name), x);
        }
        assert(named(a, name).to_multiset() =~= named(b, name).to_multiset());
    }
    let pa = names_only(a);
    let pb = names_only(b);
    assert forall|i: int, j: int| 0 <= i < j < pa.len() implies chars_le(
        #[trigger] pa[i].name,
        #[trigger] pa[j].name,
    ) by {
        assert(pa[i].name == a[i].name && pa[j].name == a[j].name);
    }
    assert forall|i: int, j: int| 0 <= i < j < pb.len() implies chars_le(
        #[trigger] pb[i].name,
        #[trigger] pb[j].name,
    ) by {
        assert(pb[i].name == b[i].name && pb[j].name == b[j].name);
    }
    assert forall|name: Seq<char>| #[trigger] named(pa, name) == named(pb, name) by {
        lemma_names_only_named(a, name);
        lemma_names_only_named(b, name);
        let na = named(a, name);
        let nb = named(b, name);
        assert(na.to_multiset() == nb.to_multiset());
        vstd::seq_lib::to_multiset_len(na);
        vstd::seq_lib::to_multiset_len(nb);
        assert(na.len() == nb.len());
        assert forall|i: int| 0 <= i < na.len() implies #[trigger] names_only(na)[i] == names_only(
            nb,
        )[i] by {
            a.lemma_filter_pred(name_is(name), i);
            b.lemma_filter_pred(name_is(name), i);
        }
        assert(names_only(na) =~= names_only(nb));
    }
    lemma_same_listing(pa, pb);
    assert forall|i: int| 0 <= i < a.len() implies #[trigger] a[i].name == b[i].name by {
        assert(pa[i] == pb[i]);
    }
}

} // verus!
