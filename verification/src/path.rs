//! Paths as the filesystem compares them: a sequence of components.
//!
//! A path is read the way `std::path` reads a Unix path: a leading `/` is the
//! root, empty pieces and `.` pieces between separators are dropped, a leading
//! `.` is kept as the current directory, and `..` is the parent. Each
//! component is held as its text, with the root written `/`: no other
//! component can be spelled that way, so the sequence names the path
//! unambiguously.

use vstd::prelude::*;

use crate::text::{push_arg, push_char, push_owned, split_on, str_eq, views};

verus! {

/// A piece between separators that names a component rather than nothing.
pub open spec fn keeps_part(part: Seq<char>) -> bool {
    part.len() > 0 && part != "."@
}

pub open spec fn kept_parts(parts: Seq<Seq<char>>) -> Seq<Seq<char>>
    decreases parts.len(),
{
    if parts.len() == 0 {
        Seq::empty()
    } else {
        let earlier = kept_parts(parts.drop_last());
        if keeps_part(parts.last()) {
            earlier.push(parts.last())
        } else {
            earlier
        }
    }
}

/// The components of `path`.
pub open spec fn spec_components(path: Seq<char>) -> Seq<Seq<char>> {
    let parts = split_on(path, '/');
    if path.len() > 0 && path[0] == '/' {
        seq!["/"@] + kept_parts(parts)
    } else if parts[0] == "."@ {
        seq!["."@] + kept_parts(parts)
    } else {
        kept_parts(parts)
    }
}

/// A component that names a file or folder: not the root, `.` or `..`.
pub open spec fn is_normal(component: Seq<char>) -> bool {
    component != "/"@ && component != "."@ && component != ".."@
}

/// The last component, when it names something.
pub open spec fn spec_file_name(components: Seq<Seq<char>>) -> Option<Seq<char>> {
    if components.len() > 0 && is_normal(components.last()) {
        Some(components.last())
    } else {
        None
    }
}

/// The path without its last component; none for the root or an empty path.
pub open spec fn spec_parent(components: Seq<Seq<char>>) -> Option<Seq<Seq<char>>> {
    if components.len() > 0 && components.last() != "/"@ {
        Some(components.drop_last())
    } else {
        None
    }
}

/// `base` is a leading run of `path`'s components.
pub open spec fn spec_starts_with(path: Seq<Seq<char>>, base: Seq<Seq<char>>) -> bool {
    base.len() <= path.len() && path.take(base.len() as int) == base
}

/// What follows `base` in `path`, when `path` starts with it.
pub open spec fn spec_strip_prefix(path: Seq<Seq<char>>, base: Seq<Seq<char>>) -> Option<
    Seq<Seq<char>>,
> {
    if spec_starts_with(path, base) {
        Some(path.skip(base.len() as int))
    } else {
        None
    }
}

/// The position of the last `.` in `name`.
pub open spec fn last_dot(name: Seq<char>) -> Option<int>
    decreases name.len(),
{
    if name.len() == 0 {
        None
    } else if name.last() == '.' {
        Some(name.len() - 1)
    } else {
        last_dot(name.drop_last())
    }
}

pub proof fn lemma_last_dot_bounds(name: Seq<char>)
    ensures
        last_dot(name) matches Some(at) ==> 0 <= at < name.len() && name[at] == '.',
        last_dot(name) is None ==> forall|i: int| 0 <= i < name.len() ==> name[i] != '.',
    decreases name.len(),
{
    if name.len() > 0 && name.last() != '.' {
        lemma_last_dot_bounds(name.drop_last());
        assert forall|i: int| 0 <= i < name.len() - 1 implies name[i] == name.drop_last()[i] by {}
    }
}

/// A file name without its extension. A name whose only dot leads it, such
/// as `.wav`, has no extension.
pub open spec fn spec_stem(name: Seq<char>) -> Seq<char> {
    match last_dot(name) {
        Some(at) => if at > 0 {
            name.take(at)
        } else {
            name
        },
        None => name,
    }
}

/// What follows the last dot of a file name, if a dot other than a leading
/// one is there.
pub open spec fn spec_extension(name: Seq<char>) -> Option<Seq<char>> {
    match last_dot(name) {
        Some(at) => if at > 0 {
            Some(name.skip(at + 1))
        } else {
            None
        },
        None => None,
    }
}

/// `parts` joined with `/`.
pub open spec fn joined(parts: Seq<Seq<char>>) -> Seq<char>
    decreases parts.len(),
{
    if parts.len() == 0 {
        Seq::empty()
    } else if parts.len() == 1 {
        parts[0]
    } else {
        joined(parts.drop_last()).push('/') + parts.last()
    }
}

/// The text of a path made of `components`.
pub open spec fn render(components: Seq<Seq<char>>) -> Seq<char> {
    if components.len() > 0 && components[0] == "/"@ {
        seq!['/'] + joined(components.drop_first())
    } else {
        joined(components)
    }
}

proof fn lemma_split_step(whole: Seq<char>, i: int, c: char)
    requires
        0 <= i < whole.len(),
        whole[i] == c,
    ensures
        split_on(whole.take(i + 1), '/') == if c == '/' {
            split_on(whole.take(i), '/').push(Seq::<char>::empty())
        } else {
            let init = split_on(whole.take(i), '/');
            init.update(init.len() - 1, init.last().push(c))
        },
{
    assert(whole.take(i + 1).drop_last() =~= whole.take(i));
    assert(whole.take(i + 1).last() == c);
}

fn keeps_part_exec(part: &str) -> (keeps: bool)
    ensures
        keeps == keeps_part(part@),
{
    part.unicode_len() > 0 && !str_eq(part, ".")
}

/// The components of `path`.
pub fn components(path: &str) -> (cs: Vec<String>)
    ensures
        views(cs@) == spec_components(path@),
{
    let n = path.unicode_len();
    let ghost whole = path@;
    let mut kept: Vec<String> = Vec::new();
    let mut current = String::new();
    let ghost mut done: Seq<Seq<char>> = Seq::empty();
    let mut first_is_dot = false;
    let mut any_done = false;
    let mut i: usize = 0;
    assert(whole.take(0) =~= Seq::<char>::empty());
    while i < n
        invariant
            n == whole.len(),
            whole == path@,
            i <= n,
            split_on(whole.take(i as int), '/') == done.push(current@),
            views(kept@) == kept_parts(done),
            any_done == (done.len() > 0),
            done.len() > 0 ==> first_is_dot == (done[0] == "."@),
        decreases n - i,
    {
        let c = path.get_char(i);
        proof {
            lemma_split_step(whole, i as int, c);
        }
        if c == '/' {
            if !any_done {
                first_is_dot = str_eq(current.as_str(), ".");
            }
            any_done = true;
            let keeps = keeps_part_exec(current.as_str());
            let finished = current;
            let ghost finished_view = finished@;
            if keeps {
                push_owned(&mut kept, finished);
            }
            proof {
                let next = done.push(finished_view);
                assert(next.drop_last() =~= done);
                done = next;
            }
            current = String::new();
            assert(split_on(whole.take(i + 1), '/') =~= done.push(current@));
        } else {
            push_char(&mut current, c);
            assert(split_on(whole.take(i + 1), '/') =~= done.push(current@));
        }
        i += 1;
    }
    assert(whole.take(n as int) =~= whole);
    let parts_first_is_dot = if !any_done {
        str_eq(current.as_str(), ".")
    } else {
        first_is_dot
    };
    let ghost parts = done.push(current@);
    assert(parts.drop_last() =~= done);
    assert(parts_first_is_dot == (parts[0] == "."@));
    if keeps_part_exec(current.as_str()) {
        push_owned(&mut kept, current);
    }
    assert(views(kept@) == kept_parts(parts));
    if n > 0 && path.get_char(0) == '/' {
        kept.insert(0, "/".to_owned());
        assert(views(kept@) =~= seq!["/"@] + kept_parts(parts));
    } else if parts_first_is_dot {
        kept.insert(0, ".".to_owned());
        assert(views(kept@) =~= seq!["."@] + kept_parts(parts));
    }
    kept
}

/// `parts` joined with `/`.
fn join_with_slash(parts: &Vec<String>, from: usize) -> (text: String)
    requires
        from <= parts@.len(),
    ensures
        text@ == joined(views(parts@).skip(from as int)),
{
    let n = parts.len();
    let ghost all = views(parts@).skip(from as int);
    let mut text = String::new();
    if from == n {
        assert(all.len() == 0);
        return text;
    }
    text.append(parts[from].as_str());
    let mut i: usize = from + 1;
    assert(all.take(1) =~= seq![all[0]]);
    while i < n
        invariant
            n == parts@.len(),
            from < i <= n,
            all == views(parts@).skip(from as int),
            text@ == joined(all.take(i - from)),
        decreases n - i,
    {
        let ghost before = all.take(i - from);
        push_char(&mut text, '/');
        text.append(parts[i].as_str());
        proof {
            let next = all.take(i - from + 1);
            assert(next.drop_last() =~= before);
            assert(next.last() == parts@[i as int]@);
        }
        i += 1;
    }
    assert(all.take(n - from) =~= all);
    text
}

/// The text of the path made of `components`.
pub fn render_path(components: &Vec<String>) -> (text: String)
    ensures
        text@ == render(views(components@)),
{
    let ghost cs = views(components@);
    if components.len() > 0 && str_eq(components[0].as_str(), "/") {
        let mut text = String::new();
        push_char(&mut text, '/');
        let rest = join_with_slash(components, 1);
        text.append(rest.as_str());
        assert(views(components@).skip(1) =~= cs.drop_first());
        assert(text@ =~= seq!['/'] + joined(cs.drop_first()));
        text
    } else {
        assert(views(components@).skip(0) =~= cs);
        join_with_slash(components, 0)
    }
}

pub fn is_normal_exec(component: &str) -> (normal: bool)
    ensures
        normal == is_normal(component@),
{
    !str_eq(component, "/") && !str_eq(component, ".") && !str_eq(component, "..")
}

/// The position of the last `.` in `name`.
pub fn last_dot_exec(name: &str) -> (at: Option<usize>)
    ensures
        match at {
            Some(k) => last_dot(name@) == Some(k as int) && k < name@.len(),
            None => last_dot(name@) is None,
        },
{
    proof {
        lemma_last_dot_bounds(name@);
    }
    let n = name.unicode_len();
    let ghost whole = name@;
    let mut i: usize = n;
    assert(whole.take(n as int) =~= whole);
    while i > 0
        invariant
            n == whole.len(),
            whole == name@,
            i <= n,
            last_dot(whole) == last_dot(whole.take(i as int)),
        decreases i,
    {
        let c = name.get_char(i - 1);
        assert(whole.take(i as int).last() == c);
        if c == '.' {
            return Some(i - 1);
        }
        assert(whole.take(i as int).drop_last() =~= whole.take(i - 1));
        i -= 1;
    }
    None
}

/// A file name without its extension.
pub fn stem(name: &str) -> (s: String)
    ensures
        s@ == spec_stem(name@),
{
    match last_dot_exec(name) {
        Some(at) => if at > 0 {
            name.substring_char(0, at).to_owned()
        } else {
            name.to_owned()
        },
        None => name.to_owned(),
    }
}

/// What follows the last dot of a file name.
pub fn extension(name: &str) -> (ext: Option<String>)
    ensures
        match ext {
            Some(e) => spec_extension(name@) == Some(e@),
            None => spec_extension(name@) is None,
        },
{
    match last_dot_exec(name) {
        Some(at) => if at > 0 {
            let n = name.unicode_len();
            Some(name.substring_char(at + 1, n).to_owned())
        } else {
            None
        },
        None => None,
    }
}

/// Whether `path` begins with the components of `base`.
pub fn starts_with(path: &Vec<String>, base: &Vec<String>) -> (starts: bool)
    ensures
        starts == spec_starts_with(views(path@), views(base@)),
{
    let m = base.len();
    if m > path.len() {
        return false;
    }
    let mut i: usize = 0;
    while i < m
        invariant
            m == base@.len(),
            m <= path@.len(),
            i <= m,
            forall|j: int| 0 <= j < i ==> path@[j]@ == base@[j]@,
        decreases m - i,
    {
        if !str_eq(path[i].as_str(), base[i].as_str()) {
            assert(views(path@).take(m as int)[i as int] != views(base@)[i as int]);
            return false;
        }
        i += 1;
    }
    assert(views(path@).take(m as int) =~= views(base@));
    true
}

/// Whether two paths have the same components.
pub fn same_components(a: &Vec<String>, b: &Vec<String>) -> (same: bool)
    ensures
        same == (views(a@) == views(b@)),
{
    if a.len() != b.len() {
        assert(views(a@).len() != views(b@).len());
        return false;
    }
    let same = starts_with(a, b);
    assert(views(a@).take(b@.len() as int) =~= views(a@));
    same
}

/// `components` with `.` dropped and each `..` taking the name before it
/// away: the path as the filesystem resolves it, links aside. `..` at the
/// root stays at the root, and `..` with no name before it is kept.
pub open spec fn without_dots(components: Seq<Seq<char>>) -> Seq<Seq<char>>
    decreases components.len(),
{
    if components.len() == 0 {
        Seq::empty()
    } else {
        let earlier = without_dots(components.drop_last());
        let c = components.last();
        if c == "."@ {
            earlier
        } else if c == ".."@ {
            if earlier.len() > 0 && crate::path::is_normal(earlier.last()) {
                earlier.drop_last()
            } else if earlier.len() > 0 && earlier.last() == "/"@ {
                earlier
            } else {
                earlier.push(c)
            }
        } else {
            earlier.push(c)
        }
    }
}

pub fn settle_components(cs: &Vec<String>) -> (settled: Vec<String>)
    ensures
        views(settled@) == without_dots(views(cs@)),
{
    let n = cs.len();
    let mut settled: Vec<String> = Vec::new();
    let mut i: usize = 0;
    while i < n
        invariant
            n == cs@.len(),
            i <= n,
            views(settled@) == without_dots(views(cs@).take(i as int)),
        decreases n - i,
    {
        proof {
            let t = views(cs@).take(i + 1);
            assert(t.drop_last() =~= views(cs@).take(i as int));
            assert(t.last() == cs@[i as int]@);
        }
        let c = cs[i].as_str();
        if str_eq(c, ".") {
        } else if str_eq(c, "..") {
            let m = settled.len();
            if m > 0 && is_normal_exec(settled[m - 1].as_str()) {
                let ghost before = views(settled@);
                settled.pop();
                assert(views(settled@) =~= before.drop_last());
            } else if m > 0 && str_eq(settled[m - 1].as_str(), "/") {
            } else {
                push_arg(&mut settled, c);
            }
        } else {
            push_arg(&mut settled, c);
        }
        i += 1;
    }
    assert(views(cs@).take(n as int) =~= views(cs@));
    settled
}

/// The components `cs` name when read from `cwd`: as they are when they
/// start at the root, and under `cwd` when they do not.
pub open spec fn anchored_components(cs: Seq<Seq<char>>, cwd: Seq<char>) -> Seq<Seq<char>> {
    if cs.len() > 0 && cs[0] == "/"@ {
        cs
    } else {
        spec_components(cwd) + cs
    }
}

/// The components `cs` name when read from `cwd`.
pub fn anchor(cs: &Vec<String>, cwd: &str) -> (whole: Vec<String>)
    ensures
        views(whole@) == anchored_components(views(cs@), cwd@),
{
    let mut whole = components(cwd);
    if cs.len() > 0 && str_eq(cs[0].as_str(), "/") {
        whole = Vec::new();
    }
    let ghost before = views(whole@);
    let mut i: usize = 0;
    while i < cs.len()
        invariant
            i <= cs@.len(),
            views(whole@) == before + views(cs@).take(i as int),
        decreases cs@.len() - i,
    {
        crate::text::push_arg(&mut whole, cs[i].as_str());
        assert(views(cs@).take(i + 1) =~= views(cs@).take(i as int).push(cs@[i as int]@));
        assert(views(whole@) =~= before + views(cs@).take(i + 1));
        i += 1;
    }
    assert(views(cs@).take(cs@.len() as int) =~= views(cs@));
    if cs.len() > 0 && str_eq(cs[0].as_str(), "/") {
        assert(before =~= Seq::<Seq<char>>::empty());
        assert(views(whole@) =~= views(cs@));
    }
    whole
}

} // verus!
