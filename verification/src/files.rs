//! Turning what someone hands over into a list of tracks, and deciding where
//! each result lands.
//!
//! A path typed at a shell, expanded by a glob or dropped onto a window all
//! arrive as the same thing, and all want the same answers: which of these
//! are audio, what is inside that folder, and where does the result go.

use vstd::prelude::*;

use crate::device::Codec;
use crate::path::{
    anchor, anchored_components, components, extension, is_normal_exec, render, render_path,
    same_components, settle_components, spec_components, without_dots,
    spec_extension, spec_file_name, spec_starts_with, spec_stem, spec_strip_prefix, starts_with,
    stem,
};
use crate::text::{push_arg, push_owned, str_eq, views};

verus! {

/// The containers this program reads: one list, used to sweep a folder, to
/// build the shell completion and to filter a drop. `.mp4` is left out on
/// purpose: a music video carries an AAC stream like a track does.
pub const AUDIO_EXTENSIONS: [&'static str; 7] = ["wav", "flac", "aif", "aiff", "m4a", "mp3", "aac"];

/// Where converted files go.
pub const OUTPUT_FOLDER: &'static str = "_transcrate";

/// Whether a sweep descends into a previous run's output folder.
#[derive(Debug, Clone, Copy, PartialEq, Eq, Structural)]
pub enum PreviousOutput {
    /// Converting: taking it back in would re-encode the last run's results.
    Skip,
    /// Checking: whether what was made plays is the obvious question.
    Include,
}

/// Nothing was wrong with the file, only with where its result would land.
#[derive(Debug, Clone, PartialEq, Eq)]
pub enum PathError {
    Nameless(String),
    WouldOverwriteSource(String),
}

/// `c` with ASCII capitals made lower case, anything else unchanged.
pub open spec fn ascii_lower(c: char) -> char {
    if 'A' <= c && c <= 'Z' {
        ((c as int) + 32) as char
    } else {
        c
    }
}

/// Two texts that differ at most in the case of ASCII letters.
pub open spec fn same_ignoring_ascii_case(a: Seq<char>, b: Seq<char>) -> bool {
    a.len() == b.len() && forall|i: int| 0 <= i < a.len() ==> ascii_lower(a[i]) == ascii_lower(b[i])
}

/// The extension of the file a path names, if it has one.
pub open spec fn path_extension(path: Seq<char>) -> Option<Seq<char>> {
    match spec_file_name(spec_components(path)) {
        Some(name) => spec_extension(name),
        None => None,
    }
}

/// A path names one of the containers this program reads, whatever the case
/// of its extension.
pub open spec fn spec_is_audio(path: Seq<char>) -> bool {
    match path_extension(path) {
        Some(ext) => exists|k: int|
            0 <= k < AUDIO_EXTENSIONS@.len() && same_ignoring_ascii_case(
                #[trigger] AUDIO_EXTENSIONS@[k]@,
                ext,
            ),
        None => false,
    }
}

pub(crate) fn ascii_lower_exec(c: char) -> (lower: char)
    ensures
        lower == ascii_lower(c),
{
    if 'A' <= c && c <= 'Z' {
        ((c as u32 + 32) as u8) as char
    } else {
        c
    }
}

/// Whether two texts differ at most in the case of ASCII letters.
pub fn eq_ignore_ascii_case(a: &str, b: &str) -> (same: bool)
    ensures
        same == same_ignoring_ascii_case(a@, b@),
{
    let n = a.unicode_len();
    if n != b.unicode_len() {
        return false;
    }
    let mut i: usize = 0;
    while i < n
        invariant
            n == a@.len(),
            n == b@.len(),
            i <= n,
            forall|j: int| 0 <= j < i ==> ascii_lower(a@[j]) == ascii_lower(b@[j]),
        decreases n - i,
    {
        if ascii_lower_exec(a.get_char(i)) != ascii_lower_exec(b.get_char(i)) {
            return false;
        }
        i += 1;
    }
    true
}

/// The extension of the file `path` names.
fn file_extension(path: &str) -> (ext: Option<String>)
    ensures
        match ext {
            Some(e) => path_extension(path@) == Some(e@),
            None => path_extension(path@) is None,
        },
{
    let cs = components(path);
    let n = cs.len();
    if n == 0 || !is_normal_exec(cs[n - 1].as_str()) {
        return None;
    }
    extension(cs[n - 1].as_str())
}

/// Whether a path names one of the containers this program reads.
pub fn is_audio(path: &str) -> (audio: bool)
    ensures
        audio == spec_is_audio(path@),
{
    let ext = match file_extension(path) {
        Some(ext) => ext,
        None => return false,
    };
    let known = AUDIO_EXTENSIONS;
    let mut k: usize = 0;
    while k < 7
        invariant
            known@ == AUDIO_EXTENSIONS@,
            path_extension(path@) == Some(ext@),
            k <= 7,
            forall|j: int| 0 <= j < k ==> !same_ignoring_ascii_case(
                #[trigger] AUDIO_EXTENSIONS@[j]@,
                ext@,
            ),
        decreases 7 - k,
    {
        if eq_ignore_ascii_case(known[k], ext.as_str()) {
            return true;
        }
        k += 1;
    }
    false
}

/// The extension a codec is normally written with. AAC and ALAC share `.m4a`.
pub open spec fn spec_extension_for(codec: Codec) -> Seq<char> {
    match codec {
        Codec::Mp3 => "mp3"@,
        Codec::AacLc => "m4a"@,
        Codec::Alac => "m4a"@,
        Codec::Flac => "flac"@,
        Codec::PcmWav => "wav"@,
        Codec::PcmAiff => "aiff"@,
    }
}

pub fn extension_for(codec: Codec) -> (ext: &'static str)
    ensures
        ext@ == spec_extension_for(codec),
{
    match codec {
        Codec::Mp3 => "mp3",
        Codec::AacLc | Codec::Alac => "m4a",
        Codec::Flac => "flac",
        Codec::PcmWav => "wav",
        Codec::PcmAiff => "aiff",
    }
}

/// Where the result of converting `input` into `codec` lands, as components,
/// or none when the input names no file. Its name is the source's whole
/// stem with the codec's extension.
///
/// A file named on its own has no `base`, and its result sits in an
/// [`OUTPUT_FOLDER`] beside it. A file swept out of `base` keeps its place
/// under one output folder beside `base`. A named folder `into` takes the
/// place of the output folder.
pub open spec fn spec_destination(
    input: Seq<char>,
    into: Option<Seq<char>>,
    base: Option<Seq<char>>,
    codec: Codec,
) -> Option<Seq<Seq<char>>> {
    let cs = spec_components(input);
    match spec_file_name(cs) {
        None => None,
        Some(name) => {
            let holding = cs.drop_last();
            let kept = match base {
                Some(b) => match spec_strip_prefix(holding, spec_components(b)) {
                    Some(rest) => rest,
                    None => Seq::empty(),
                },
                None => Seq::empty(),
            };
            let root = match (into, base) {
                (Some(directory), _) => spec_components(directory),
                (None, Some(b)) => spec_components(b).push(OUTPUT_FOLDER@),
                (None, None) => holding.push(OUTPUT_FOLDER@),
            };
            Some((root + kept).push(spec_stem(name) + "."@ + spec_extension_for(codec)))
        },
    }
}

/// The text an optional `&str` holds.
pub open spec fn text_view(text: Option<&str>) -> Option<Seq<char>> {
    match text {
        Some(t) => Some(t@),
        None => None,
    }
}

/// Two component sequences name the same file when read from `cwd`: once
/// anchored there and with their dot segments resolved, they are equal.
pub open spec fn same_file(a: Seq<Seq<char>>, b: Seq<Seq<char>>, cwd: Seq<char>) -> bool {
    without_dots(anchored_components(a, cwd)) == without_dots(anchored_components(b, cwd))
}

/// `out` is what [`output_path`] owes for these arguments, run from `cwd`:
/// the rendered destination, or why there is none.
pub open spec fn lands(
    out: Result<String, PathError>,
    input: Seq<char>,
    into: Option<Seq<char>>,
    base: Option<Seq<char>>,
    codec: Codec,
    cwd: Seq<char>,
) -> bool {
    match spec_destination(input, into, base, codec) {
        None => out matches Err(PathError::Nameless(p)) && p@ == input,
        Some(dest) => if same_file(dest, spec_components(input), cwd) {
            out matches Err(PathError::WouldOverwriteSource(p)) && p@ == input
        } else {
            out matches Ok(text) && text@ == render(dest)
        },
    }
}

pub(crate) fn copy_components(v: &Vec<String>, from: usize) -> (copy: Vec<String>)
    requires
        from <= v@.len(),
    ensures
        views(copy@) == views(v@).skip(from as int),
{
    let mut copy: Vec<String> = Vec::new();
    let mut i: usize = from;
    while i < v.len()
        invariant
            from <= i <= v@.len(),
            views(copy@) == views(v@).subrange(from as int, i as int),
        decreases v@.len() - i,
    {
        push_arg(&mut copy, v[i].as_str());
        assert(views(v@).subrange(from as int, i + 1) =~= views(v@).subrange(from as int, i as int).push(
            v@[i as int]@,
        ));
        i += 1;
    }
    assert(views(v@).subrange(from as int, v@.len() as int) =~= views(v@).skip(from as int));
    copy
}

/// Where a converted file lands, for a run standing in `cwd`.
///
/// Fails when the input names no file, and when the result would land on the
/// source itself: the two are compared as the files they name from `cwd`.
pub fn output_path(
    input: &str,
    into: Option<&str>,
    base: Option<&str>,
    codec: Codec,
    cwd: &str,
) -> (out: Result<String, PathError>)
    ensures
        lands(out, input@, text_view(into), text_view(base), codec, cwd@),
{
    let cs = components(input);
    let n = cs.len();
    if n == 0 || !is_normal_exec(cs[n - 1].as_str()) {
        return Err(PathError::Nameless(input.to_owned()));
    }
    let name_stem = stem(cs[n - 1].as_str());
    let mut holding = copy_components(&cs, 0);
    assert(views(cs@).skip(0) =~= views(cs@));
    let ghost whole = holding@;
    holding.pop();
    assert(holding@ =~= whole.drop_last());
    assert(views(holding@) =~= views(cs@).drop_last());
    let mut dest: Vec<String> = match (into, base) {
        (Some(directory), _) => components(directory),
        (None, Some(b)) => {
            let mut root = components(b);
            push_arg(&mut root, OUTPUT_FOLDER);
            root
        },
        (None, None) => {
            let mut root = copy_components(&holding, 0);
            assert(views(holding@).skip(0) =~= views(holding@));
            push_arg(&mut root, OUTPUT_FOLDER);
            root
        },
    };
    match base {
        Some(b) => {
            let base_cs = components(b);
            if starts_with(&holding, &base_cs) {
                let mut kept = copy_components(&holding, base_cs.len());
                let ghost before = views(dest@);
                let ghost kept_views = views(kept@);
                dest.append(&mut kept);
                assert(views(dest@) =~= before + kept_views);
            } else {
                assert(views(dest@) =~= views(dest@) + Seq::<Seq<char>>::empty());
            }
        },
        None => {
            assert(views(dest@) =~= views(dest@) + Seq::<Seq<char>>::empty());
        },
    }
    let mut renamed = name_stem;
    renamed.append(".");
    renamed.append(extension_for(codec));
    push_owned(&mut dest, renamed);
    let settled_dest = settle_components(&anchor(&dest, cwd));
    let settled_input = settle_components(&anchor(&cs, cwd));
    if same_components(&settled_dest, &settled_input) {
        return Err(PathError::WouldOverwriteSource(input.to_owned()));
    }
    Ok(render_path(&dest))
}

} // verus!

verus! {

/// Which of two characters comes first: by code point, which is also the
/// order of their UTF-8 bytes.
pub open spec fn char_lt(x: char, y: char) -> bool {
    (x as int) < (y as int)
}

/// One text before another, character by character, a prefix first.
pub open spec fn chars_lt(a: Seq<char>, b: Seq<char>) -> bool
    decreases a.len(),
{
    if a.len() == 0 {
        b.len() > 0
    } else if b.len() == 0 {
        false
    } else if a[0] == b[0] {
        chars_lt(a.drop_first(), b.drop_first())
    } else {
        char_lt(a[0], b[0])
    }
}

/// Where a component sorts among the kinds: the root, then `.`, then `..`,
/// then names.
pub open spec fn rank(component: Seq<char>) -> int {
    if component == "/"@ {
        0
    } else if component == "."@ {
        1
    } else if component == ".."@ {
        2
    } else {
        3
    }
}

/// One component before another: by kind, and two names by their text.
pub open spec fn component_lt(x: Seq<char>, y: Seq<char>) -> bool {
    rank(x) < rank(y) || (rank(x) == 3 && rank(y) == 3 && chars_lt(x, y))
}

/// One path before another, component by component, a prefix first.
pub open spec fn components_lt(a: Seq<Seq<char>>, b: Seq<Seq<char>>) -> bool
    decreases a.len(),
{
    if a.len() == 0 {
        b.len() > 0
    } else if b.len() == 0 {
        false
    } else if a[0] == b[0] {
        components_lt(a.drop_first(), b.drop_first())
    } else {
        component_lt(a[0], b[0])
    }
}

/// The order `std::path` gives paths: by their components.
pub open spec fn path_lt(a: Seq<char>, b: Seq<char>) -> bool {
    components_lt(spec_components(a), spec_components(b))
}

/// `x` placed after everything in `sorted` that does not come after it.
pub open spec fn insert_in_order(sorted: Seq<Seq<char>>, x: Seq<char>) -> Seq<Seq<char>>
    decreases sorted.len(),
{
    if sorted.len() == 0 {
        seq![x]
    } else if path_lt(x, sorted.last()) {
        insert_in_order(sorted.drop_last(), x).push(sorted.last())
    } else {
        sorted.push(x)
    }
}

/// `paths` in path order; paths that compare equal keep the order they came in.
pub open spec fn sorted_paths(paths: Seq<Seq<char>>) -> Seq<Seq<char>>
    decreases paths.len(),
{
    if paths.len() == 0 {
        Seq::empty()
    } else {
        insert_in_order(sorted_paths(paths.drop_last()), paths.last())
    }
}

fn char_less(x: char, y: char) -> (less: bool)
    ensures
        less == char_lt(x, y),
{
    (x as u32) < (y as u32)
}

fn chars_less(a: &str, b: &str) -> (less: bool)
    ensures
        less == chars_lt(a@, b@),
{
    let n = a.unicode_len();
    let m = b.unicode_len();
    let mut i: usize = 0;
    assert(a@.skip(0) =~= a@);
    assert(b@.skip(0) =~= b@);
    while i < n && i < m
        invariant
            n == a@.len(),
            m == b@.len(),
            i <= n,
            i <= m,
            chars_lt(a@, b@) == chars_lt(a@.skip(i as int), b@.skip(i as int)),
        decreases n - i,
    {
        let x = a.get_char(i);
        let y = b.get_char(i);
        assert(a@.skip(i as int)[0] == x);
        assert(b@.skip(i as int)[0] == y);
        if x != y {
            return char_less(x, y);
        }
        assert(a@.skip(i as int).drop_first() =~= a@.skip(i + 1));
        assert(b@.skip(i as int).drop_first() =~= b@.skip(i + 1));
        i += 1;
    }
    assert(a@.skip(i as int).len() == n - i);
    assert(b@.skip(i as int).len() == m - i);
    i < m
}

fn rank_of(component: &str) -> (r: u8)
    ensures
        r == rank(component@),
{
    if str_eq(component, "/") {
        0
    } else if str_eq(component, ".") {
        1
    } else if str_eq(component, "..") {
        2
    } else {
        3
    }
}

fn component_less(x: &str, y: &str) -> (less: bool)
    ensures
        less == component_lt(x@, y@),
{
    let rx = rank_of(x);
    let ry = rank_of(y);
    rx < ry || (rx == 3 && ry == 3 && chars_less(x, y))
}

fn components_less(a: &Vec<String>, b: &Vec<String>) -> (less: bool)
    ensures
        less == components_lt(views(a@), views(b@)),
{
    let n = a.len();
    let m = b.len();
    let ghost va = views(a@);
    let ghost vb = views(b@);
    let mut i: usize = 0;
    assert(va.skip(0) =~= va);
    assert(vb.skip(0) =~= vb);
    while i < n && i < m
        invariant
            n == a@.len(),
            m == b@.len(),
            va == views(a@),
            vb == views(b@),
            i <= n,
            i <= m,
            components_lt(va, vb) == components_lt(va.skip(i as int), vb.skip(i as int)),
        decreases n - i,
    {
        assert(va.skip(i as int)[0] == a@[i as int]@);
        assert(vb.skip(i as int)[0] == b@[i as int]@);
        if !str_eq(a[i].as_str(), b[i].as_str()) {
            return component_less(a[i].as_str(), b[i].as_str());
        }
        assert(va.skip(i as int).drop_first() =~= va.skip(i + 1));
        assert(vb.skip(i as int).drop_first() =~= vb.skip(i + 1));
        i += 1;
    }
    assert(va.skip(i as int).len() == n - i);
    assert(vb.skip(i as int).len() == m - i);
    i < m
}

/// Something placed by a path: a path itself, or a drive by where it is
/// mounted.
pub trait PathKeyed {
    spec fn path_key(&self) -> Seq<char>;

    fn key_text(&self) -> (key: &str)
        ensures
            key@ == self.path_key(),
    ;
}

impl PathKeyed for String {
    open spec fn path_key(&self) -> Seq<char> {
        self@
    }

    fn key_text(&self) -> (key: &str) {
        self.as_str()
    }
}

/// `x` placed after every item of `sorted` that does not come after it.
pub open spec fn insert_by_path<T: PathKeyed>(sorted: Seq<T>, x: T) -> Seq<T>
    decreases sorted.len(),
{
    if sorted.len() == 0 {
        seq![x]
    } else if path_lt(x.path_key(), sorted.last().path_key()) {
        insert_by_path(sorted.drop_last(), x).push(sorted.last())
    } else {
        sorted.push(x)
    }
}

/// `items` in the order of their paths; items whose paths compare equal keep
/// the order they came in, as a stable sort leaves them.
pub open spec fn sorted_by_path<T: PathKeyed>(items: Seq<T>) -> Seq<T>
    decreases items.len(),
{
    if items.len() == 0 {
        Seq::empty()
    } else {
        insert_by_path(sorted_by_path(items.drop_last()), items.last())
    }
}

proof fn lemma_insert_step<T: PathKeyed>(s: Seq<T>, x: T, k: int)
    requires
        0 < k <= s.len(),
        path_lt(x.path_key(), s[k - 1].path_key()),
    ensures
        insert_by_path(s.take(k), x) + s.skip(k) == insert_by_path(s.take(k - 1), x) + s.skip(
            k - 1,
        ),
{
    assert(s.take(k).drop_last() =~= s.take(k - 1));
    assert(s.take(k).last() == s[k - 1]);
    assert(insert_by_path(s.take(k - 1), x).push(s[k - 1]) + s.skip(k) =~= insert_by_path(
        s.take(k - 1),
        x,
    ) + s.skip(k - 1));
}

/// Whether `a`'s path comes before `b`'s.
fn path_less(a: &str, b: &str) -> (less: bool)
    ensures
        less == path_lt(a@, b@),
{
    let ka = components(a);
    let kb = components(b);
    components_less(&ka, &kb)
}

/// `items` in the order of their paths, as a stable sort leaves them.
pub fn sort_by_path<T: PathKeyed>(items: Vec<T>) -> (sorted: Vec<T>)
    ensures
        sorted@ == sorted_by_path(items@),
{
    let ghost all = items@;
    let mut rest = items;
    let mut sorted: Vec<T> = Vec::new();
    let n = rest.len();
    let mut i: usize = 0;
    while i < n
        invariant
            n == all.len(),
            i <= n,
            rest@ == all.skip(i as int),
            sorted@ == sorted_by_path(all.take(i as int)),
        decreases n - i,
    {
        let ghost s = sorted@;
        let x = rest.remove(0);
        assert(x == all[i as int]);
        assert(rest@ =~= all.skip(i + 1));
        proof {
            let t = all.take(i + 1);
            assert(t.drop_last() =~= all.take(i as int));
            assert(t.last() == x);
        }
        let mut k: usize = sorted.len();
        assert(s.take(k as int) =~= s);
        assert(s.skip(k as int) =~= Seq::<T>::empty());
        assert(insert_by_path(s, x) =~= insert_by_path(s.take(k as int), x) + s.skip(k as int));
        while k > 0 && path_less(x.key_text(), sorted[k - 1].key_text())
            invariant
                k <= sorted@.len(),
                s == sorted@,
                insert_by_path(s, x) == insert_by_path(s.take(k as int), x) + s.skip(k as int),
            decreases k,
        {
            proof {
                lemma_insert_step(s, x, k as int);
            }
            k -= 1;
        }
        proof {
            if k == 0 {
                assert(s.take(0) =~= Seq::<T>::empty());
                assert(s.skip(0) =~= s);
            } else {
                assert(s.take(k as int).last() == s[k - 1]);
            }
        }
        sorted.insert(k, x);
        assert(sorted@ =~= s.take(k as int).push(x) + s.skip(k as int));
        i += 1;
    }
    assert(all.take(n as int) =~= all);
    sorted
}

proof fn lemma_insert_views(s: Seq<String>, x: String)
    ensures
        views(insert_by_path(s, x)) == insert_in_order(views(s), x@),
    decreases s.len(),
{
    if s.len() > 0 {
        assert(views(s).drop_last() =~= views(s.drop_last()));
        assert(views(s).last() == s.last()@);
        lemma_insert_views(s.drop_last(), x);
        if path_lt(x@, s.last()@) {
            assert(views(insert_by_path(s, x)) =~= views(insert_by_path(s.drop_last(), x)).push(s.last()@));
        } else {
            assert(views(insert_by_path(s, x)) =~= views(s).push(x@));
        }
    } else {
        assert(views(insert_by_path(s, x)) =~= seq![x@]);
    }
}

proof fn lemma_sorted_views(s: Seq<String>)
    ensures
        views(sorted_by_path(s)) == sorted_paths(views(s)),
    decreases s.len(),
{
    if s.len() > 0 {
        lemma_sorted_views(s.drop_last());
        lemma_insert_views(sorted_by_path(s.drop_last()), s.last());
        assert(views(s).drop_last() =~= views(s.drop_last()));
        assert(views(s).last() == s.last()@);
    } else {
        assert(views(sorted_by_path(s)) =~= sorted_paths(views(s)));
    }
}

/// `paths` in path order, as `sort` on a list of paths leaves them.
pub fn sort_paths(paths: Vec<String>) -> (sorted: Vec<String>)
    ensures
        views(sorted@) == sorted_paths(views(paths@)),
{
    proof {
        lemma_sorted_views(paths@);
    }
    sort_by_path(paths)
}

} // verus!

verus! {

/// What a set of paths expanded to.
#[derive(Debug, Clone, Default, PartialEq, Eq)]
pub struct Found {
    /// Every audio file, in path order.
    pub files: Vec<String>,
    /// Folders that could not be listed in full. Whatever audio is inside
    /// them is missing from `files`.
    pub unreadable: Vec<String>,
    /// The folders that were handed over and expanded, in the order given.
    pub roots: Vec<String>,
}

/// The index of the root `file` was swept out of: among the roots `file`
/// lies under, the one with the most components, the last of them on a tie.
pub open spec fn nearest_root(roots: Seq<Seq<char>>, file: Seq<char>) -> Option<int>
    decreases roots.len(),
{
    if roots.len() == 0 {
        None
    } else {
        let earlier = nearest_root(roots.drop_last(), file);
        let last = roots.len() - 1;
        if spec_starts_with(spec_components(file), spec_components(roots[last])) {
            match earlier {
                Some(e) => if spec_components(roots[e]).len() > spec_components(
                    roots[last],
                ).len() {
                    Some(e)
                } else {
                    Some(last)
                },
                None => Some(last),
            }
        } else {
            earlier
        }
    }
}

proof fn lemma_nearest_root_bounds(roots: Seq<Seq<char>>, file: Seq<char>)
    ensures
        nearest_root(roots, file) matches Some(i) ==> 0 <= i < roots.len(),
    decreases roots.len(),
{
    if roots.len() > 0 {
        lemma_nearest_root_bounds(roots.drop_last(), file);
    }
}

impl Found {
    /// The folder `file` was swept out of, if it was swept out of one. Roots
    /// can sit inside one another, and the nearer one is the shape the person
    /// had in mind. A file named on its own has none.
    pub fn base_of(&self, file: &str) -> (base: Option<&str>)
        ensures
            match nearest_root(views(self.roots@), file@) {
                Some(i) => base matches Some(b) && b@ == self.roots@[i]@,
                None => base is None,
            },
            base matches Some(b) ==> {
                &&& exists|i: int| 0 <= i < self.roots@.len() && (#[trigger] self.roots@[i])@ == b@
                &&& spec_starts_with(spec_components(file@), spec_components(b@))
                &&& forall|j: int|
                    0 <= j < self.roots@.len() && spec_starts_with(
                        spec_components(file@),
                        spec_components((#[trigger] self.roots@[j])@),
                    ) ==> spec_components(self.roots@[j]@).len() <= spec_components(b@).len()
            },
            base is None <==> forall|j: int|
                0 <= j < self.roots@.len() ==> !spec_starts_with(
                    spec_components(file@),
                    spec_components((#[trigger] self.roots@[j])@),
                ),
    {
        proof {
            the_nearest_root_is_the_base(views(self.roots@), file@);
            assert forall|j: int| 0 <= j < self.roots@.len() implies views(self.roots@)[j] == (#[trigger] self.roots@[j])@ by {}
        }
        let target = components(file);
        let n = self.roots.len();
        let mut best: Option<usize> = None;
        let mut best_len: usize = 0;
        let mut i: usize = 0;
        while i < n
            invariant
                n == self.roots@.len(),
                i <= n,
                views(target@) == spec_components(file@),
                best == match nearest_root(views(self.roots@).take(i as int), file@) {
                    Some(j) => Some(j as usize),
                    None => None::<usize>,
                },
                best matches Some(j) ==> j < i && best_len == spec_components(self.roots@[j as int]@).len(),
            decreases n - i,
        {
            let ghost prefix = views(self.roots@).take(i + 1);
            proof {
                assert(prefix.drop_last() =~= views(self.roots@).take(i as int));
                assert(prefix[i as int] == self.roots@[i as int]@);
                lemma_nearest_root_bounds(views(self.roots@).take(i as int), file@);
                if let Some(j) = best {
                    assert(prefix[j as int] == self.roots@[j as int]@);
                }
            }
            let root = components(self.roots[i].as_str());
            if starts_with(&target, &root) {
                let replace = match best {
                    Some(_) => !(best_len > root.len()),
                    None => true,
                };
                if replace {
                    best = Some(i);
                    best_len = root.len();
                }
            }
            i += 1;
        }
        assert(views(self.roots@).take(n as int) =~= views(self.roots@));
        proof {
            lemma_nearest_root_bounds(views(self.roots@), file@);
        }
        match best {
            Some(j) => Some(self.roots[j].as_str()),
            None => None,
        }
    }
}

} // verus!

verus! {

/// A path handed over, with whether it names a folder.
#[derive(Debug, Clone)]
pub struct Handed {
    pub path: String,
    pub is_folder: bool,
}

/// One entry of a folder's listing, as the filesystem reported it. Whether
/// an entry is a folder is read without following links: a folder holding a
/// link back to one above it would otherwise be descended forever.
#[derive(Debug, Clone)]
pub enum Entry {
    /// A folder, to be swept in turn.
    Folder(String),
    /// Anything else, a link to a file or folder included.
    Other(String),
    /// An entry, or its kind, that the filesystem would not give up.
    Unreadable,
}

/// Where a sweep stands, as plain sequences.
pub struct SweepState {
    pub previous: PreviousOutput,
    pub bulk: bool,
    pub handed: Seq<(Seq<char>, bool)>,
    pub next: nat,
    pub pending: Seq<Seq<char>>,
    pub files: Seq<Seq<char>>,
    pub unreadable: Seq<Seq<char>>,
    pub roots: Seq<Seq<char>>,
}

/// A folder a previous run wrote its results into.
pub open spec fn names_previous_output(folder: Seq<char>) -> bool {
    spec_file_name(spec_components(folder)) == Some(OUTPUT_FOLDER@)
}

/// A folder met on the way: queued to be listed, unless it is a previous
/// run's output and those are skipped.
pub open spec fn entered(s: SweepState, folder: Seq<char>) -> SweepState {
    if s.previous == PreviousOutput::Skip && names_previous_output(folder) {
        s
    } else {
        SweepState { pending: s.pending.push(folder), ..s }
    }
}

/// The next handed path taken in. One path on its own is taken at its word;
/// several at once came from a glob or a drop, and only audio comes through.
pub open spec fn take_handed(s: SweepState) -> SweepState
    recommends
        s.next < s.handed.len(),
{
    let (path, is_folder) = s.handed[s.next as int];
    let moved = SweepState { next: s.next + 1, ..s };
    if is_folder {
        entered(SweepState { roots: moved.roots.push(path), ..moved }, path)
    } else if !s.bulk || spec_is_audio(path) {
        SweepState { files: moved.files.push(path), ..moved }
    } else {
        moved
    }
}

/// Handed paths taken in until a folder waits to be listed or none are left.
pub open spec fn settle(s: SweepState) -> SweepState
    decreases s.handed.len() - s.next,
{
    if s.pending.len() > 0 || s.next >= s.handed.len() {
        s
    } else {
        settle(take_handed(s))
    }
}

/// One entry of a listed folder taken in: folders are queued, audio is kept,
/// anything else is passed over. The flag records an entry that could not be
/// read.
pub open spec fn take_entries(s: SweepState, entries: Seq<Entry>) -> (SweepState, bool)
    decreases entries.len(),
{
    if entries.len() == 0 {
        (s, false)
    } else {
        let (t, partial) = take_entries(s, entries.drop_last());
        match entries.last() {
            Entry::Folder(path) => (entered(t, path@), partial),
            Entry::Other(path) => if spec_is_audio(path@) {
                (SweepState { files: t.files.push(path@), ..t }, partial)
            } else {
                (t, partial)
            },
            Entry::Unreadable => (t, true),
        }
    }
}

/// A folder's listing taken in. A folder that would not open, or would not
/// give up all of its entries, is named as unreadable.
pub open spec fn after_listing(s: SweepState, folder: Seq<char>, entries: Option<Seq<Entry>>) -> SweepState {
    match entries {
        None => SweepState { unreadable: s.unreadable.push(folder), ..s },
        Some(es) => {
            let (t, partial) = take_entries(s, es);
            if partial {
                SweepState { unreadable: t.unreadable.push(folder), ..t }
            } else {
                t
            }
        },
    }
}

/// Expanding handed paths into the audio they hold, one folder listing at a
/// time: the caller lists each folder [`Sweep::next_folder`] names and hands
/// the listing back to [`Sweep::listed`].
pub struct Sweep {
    previous: PreviousOutput,
    bulk: bool,
    handed: Vec<Handed>,
    next: usize,
    pending: Vec<String>,
    files: Vec<String>,
    unreadable: Vec<String>,
    roots: Vec<String>,
}

pub open spec fn handed_views(handed: Seq<Handed>) -> Seq<(Seq<char>, bool)> {
    handed.map_values(|h: Handed| (h.path@, h.is_folder))
}

/// What every sweep keeps true: several paths at once let only audio
/// through, and a previous run's output is never queued when it is skipped.
pub open spec fn sweep_invariant(s: SweepState) -> bool {
    &&& s.bulk == (s.handed.len() > 1)
    &&& s.next <= s.handed.len()
    &&& s.bulk ==> forall|i: int| 0 <= i < s.files.len() ==> spec_is_audio(#[trigger] s.files[i])
    &&& s.previous == PreviousOutput::Skip ==> forall|i: int|
        0 <= i < s.pending.len() ==> !names_previous_output(#[trigger] s.pending[i])
}

impl Sweep {
    pub closed spec fn state(&self) -> SweepState {
        SweepState {
            previous: self.previous,
            bulk: self.bulk,
            handed: handed_views(self.handed@),
            next: self.next as nat,
            pending: views(self.pending@),
            files: views(self.files@),
            unreadable: views(self.unreadable@),
            roots: views(self.roots@),
        }
    }

    /// A sweep of `handed`, nothing taken in yet.
    pub fn begin(handed: Vec<Handed>, previous: PreviousOutput) -> (sweep: Sweep)
        ensures
            sweep.state() == (SweepState {
                previous,
                bulk: handed@.len() > 1,
                handed: handed_views(handed@),
                next: 0,
                pending: Seq::empty(),
                files: Seq::empty(),
                unreadable: Seq::empty(),
                roots: Seq::empty(),
            }),
            sweep_invariant(sweep.state()),
    {
        let bulk = handed.len() > 1;
        let sweep = Sweep {
            previous,
            bulk,
            handed,
            next: 0,
            pending: Vec::new(),
            files: Vec::new(),
            unreadable: Vec::new(),
            roots: Vec::new(),
        };
        assert(views(sweep.pending@) =~= Seq::<Seq<char>>::empty());
        assert(views(sweep.files@) =~= Seq::<Seq<char>>::empty());
        assert(views(sweep.unreadable@) =~= Seq::<Seq<char>>::empty());
        assert(views(sweep.roots@) =~= Seq::<Seq<char>>::empty());
        sweep
    }

    fn enter(&mut self, folder: &str)
        requires
            sweep_invariant(old(self).state()),
        ensures
            final(self).state() == entered(old(self).state(), folder@),
            sweep_invariant(final(self).state()),
    {
        let is_output = match file_name_of(folder) {
            Some(name) => str_eq(name.as_str(), OUTPUT_FOLDER),
            None => false,
        };
        if is_output && self.previous == PreviousOutput::Skip {
            return;
        }
        push_arg(&mut self.pending, folder);
    }

    /// The next folder to list, or none once every handed path is expanded.
    pub fn next_folder(&mut self) -> (folder: Option<String>)
        requires
            sweep_invariant(old(self).state()),
        ensures
            ({
                let settled = settle(old(self).state());
                if settled.pending.len() > 0 {
                    &&& folder matches Some(f) && f@ == settled.pending.last()
                    &&& final(self).state() == (SweepState { pending: settled.pending.drop_last(), ..settled })
                } else {
                    folder is None && final(self).state() == settled
                }
            }),
            sweep_invariant(final(self).state()),
            old(self).state().previous == PreviousOutput::Skip ==> (folder matches Some(f)
                ==> !names_previous_output(f@)),
    {
        while self.pending.len() == 0 && self.next < self.handed.len()
            invariant
                sweep_invariant(self.state()),
                settle(self.state()) == settle(old(self).state()),
                self.state().previous == old(self).state().previous,
            decreases self.handed@.len() - self.next,
        {
            let ghost before = self.state();
            let i = self.next;
            let path = self.handed[i].path.clone();
            let is_folder = self.handed[i].is_folder;
            assert(before.handed[i as int] == (path@, is_folder));
            self.next = i + 1;
            if is_folder {
                push_arg(&mut self.roots, path.as_str());
                self.enter(path.as_str());
            } else if !self.bulk || is_audio(path.as_str()) {
                push_arg(&mut self.files, path.as_str());
            }
            assert(self.state() == take_handed(before));
        }
        let ghost settled = self.state();
        match self.pending.pop() {
            Some(folder) => {
                assert(views(self.pending@) =~= settled.pending.drop_last());
                assert(folder@ == settled.pending[settled.pending.len() - 1]);
                Some(folder)
            },
            None => None,
        }
    }

    /// Takes in the listing of `folder`: its entries, or none when it would
    /// not open.
    pub fn listed(&mut self, folder: &str, entries: Option<Vec<Entry>>)
        requires
            sweep_invariant(old(self).state()),
        ensures
            final(self).state() == after_listing(
                old(self).state(),
                folder@,
                match entries {
                    Some(es) => Some(es@),
                    None => None,
                },
            ),
            sweep_invariant(final(self).state()),
    {
        let entries = match entries {
            Some(entries) => entries,
            None => {
                push_arg(&mut self.unreadable, folder);
                return;
            },
        };
        let n = entries.len();
        let mut partial = false;
        let mut i: usize = 0;
        while i < n
            invariant
                n == entries@.len(),
                i <= n,
                sweep_invariant(self.state()),
                (self.state(), partial) == take_entries(old(self).state(), entries@.take(i as int)),
            decreases n - i,
        {
            proof {
                let t = entries@.take(i + 1);
                assert(t.drop_last() =~= entries@.take(i as int));
                assert(t.last() == entries@[i as int]);
            }
            match &entries[i] {
                Entry::Folder(path) => {
                    self.enter(path.as_str());
                },
                Entry::Other(path) => {
                    if is_audio(path.as_str()) {
                        push_arg(&mut self.files, path.as_str());
                    }
                },
                Entry::Unreadable => {
                    partial = true;
                },
            }
            i += 1;
        }
        assert(entries@.take(n as int) =~= entries@);
        if partial {
            push_arg(&mut self.unreadable, folder);
        }
    }

    /// What the sweep found, files and unreadable folders in path order.
    pub fn finish(self) -> (found: Found)
        ensures
            views(found.files@) == sorted_paths(self.state().files),
            views(found.unreadable@) == sorted_paths(self.state().unreadable),
            views(found.roots@) == self.state().roots,
    {
        Found {
            files: sort_paths(self.files),
            unreadable: sort_paths(self.unreadable),
            roots: self.roots,
        }
    }
}

/// The name of the file or folder `path` names, if it names one.
pub(crate) fn file_name_of(path: &str) -> (name: Option<String>)
    ensures
        match name {
            Some(n) => spec_file_name(spec_components(path@)) == Some(n@),
            None => spec_file_name(spec_components(path@)) is None,
        },
{
    let mut cs = components(path);
    let n = cs.len();
    if n == 0 || !is_normal_exec(cs[n - 1].as_str()) {
        return None;
    }
    let ghost all = views(cs@);
    let last = cs.pop().unwrap();
    assert(last@ == all.last());
    Some(last)
}


/// A file is given the nearest root it lies under: the root chosen holds it,
/// and no root that holds it has more components; a file under no root has
/// none.
pub proof fn the_nearest_root_is_the_base(roots: Seq<Seq<char>>, file: Seq<char>)
    ensures
        match nearest_root(roots, file) {
            Some(i) => {
                &&& 0 <= i < roots.len()
                &&& spec_starts_with(spec_components(file), spec_components(roots[i]))
                &&& forall|j: int|
                    0 <= j < roots.len() && spec_starts_with(spec_components(file), spec_components(#[trigger] roots[j]))
                        ==> spec_components(roots[j]).len() <= spec_components(roots[i]).len()
            },
            None => forall|j: int|
                0 <= j < roots.len() ==> !spec_starts_with(spec_components(file), spec_components(#[trigger] roots[j])),
        },
    decreases roots.len(),
{
    if roots.len() > 0 {
        let init = roots.drop_last();
        the_nearest_root_is_the_base(init, file);
        assert forall|j: int| 0 <= j < init.len() implies init[j] == roots[j] by {}
    }
}

/// A file swept out of `base` lands under the one output folder beside
/// `base`, in the folders it sat in under `base`, named by its whole stem
/// and the codec's extension.
pub proof fn a_swept_file_keeps_its_place(input: Seq<char>, base: Seq<char>, codec: Codec)
    requires
        spec_file_name(spec_components(input)) is Some,
        spec_starts_with(spec_components(input).drop_last(), spec_components(base)),
    ensures
        spec_destination(input, None, Some(base), codec) == Some(
            (spec_components(base).push(OUTPUT_FOLDER@) + spec_components(input).drop_last().skip(
                spec_components(base).len() as int,
            )).push(
                spec_stem(spec_file_name(spec_components(input))->0) + "."@ + spec_extension_for(
                    codec,
                ),
            ),
        ),
{
}


/// Several paths handed over at once let only audio through: every file a
/// sweep of them finds names one of the containers this program reads.
pub proof fn several_paths_at_once_keep_only_the_audio(s: SweepState)
    requires
        sweep_invariant(s),
        s.bulk,
    ensures
        forall|i: int| 0 <= i < sorted_paths(s.files).len() ==> spec_is_audio(#[trigger] sorted_paths(s.files)[i]),
{
    broadcast use vstd::multiset::group_multiset_axioms;
    broadcast use vstd::seq_lib::group_to_multiset_ensures;
    crate::order::sorted_paths_are_in_order(s.files);
    let sorted = sorted_paths(s.files);
    assert forall|i: int| 0 <= i < sorted.len() implies spec_is_audio(#[trigger] sorted[i]) by {
        assert(sorted.to_multiset().contains(sorted[i]));
        assert(s.files.to_multiset().contains(sorted[i]));
        assert(s.files.contains(sorted[i]));
        let k = s.files.index_of(sorted[i]);
        assert(spec_is_audio(s.files[k]));
    }
}

} // verus!
