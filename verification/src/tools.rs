//! Finding ffmpeg: a copy shipped beside the program wins, and without one
//! the bare name is left for the operating system to find on the PATH.

use vstd::prelude::*;

use crate::path::{components, render, render_path, spec_components};
use crate::text::push_owned;

verus! {

/// The name a tool is installed under: with `.exe` on Windows, as given
/// elsewhere.
pub open spec fn spec_file_name(tool: Seq<char>, windows: bool) -> Seq<char> {
    if windows {
        tool + ".exe"@
    } else {
        tool
    }
}

pub fn file_name(tool: &str, windows: bool) -> (name: String)
    ensures
        name@ == spec_file_name(tool@, windows),
{
    let mut name = tool.to_owned();
    if windows {
        name.append(".exe");
    }
    name
}

/// Where a copy shipped beside the program would be: the tool's installed
/// name inside `beside`, the folder the running program sits in.
pub open spec fn spec_shipped(beside: Seq<char>, tool: Seq<char>, windows: bool) -> Seq<char> {
    let name = spec_file_name(tool, windows);
    render(
        if name == "."@ {
            spec_components(beside)
        } else {
            spec_components(beside).push(name)
        },
    )
}

pub fn shipped(beside: &str, tool: &str, windows: bool) -> (path: String)
    ensures
        path@ == spec_shipped(beside@, tool@, windows),
{
    let mut cs = components(beside);
    let name = file_name(tool, windows);
    if !crate::text::str_eq(name.as_str(), ".") {
        push_owned(&mut cs, name);
    }
    render_path(&cs)
}

/// The tool to run: the shipped copy when there is one and it is a file, a
/// folder of that name being no tool; otherwise the bare name, which the
/// operating system looks up on the PATH.
pub fn locate(shipped: Option<&str>, shipped_is_file: bool, tool: &str) -> (path: String)
    ensures
        path@ == match shipped {
            Some(p) => if shipped_is_file {
                p@
            } else {
                tool@
            },
            None => tool@,
        },
{
    match shipped {
        Some(p) => if shipped_is_file {
            p.to_owned()
        } else {
            tool.to_owned()
        },
        None => tool.to_owned(),
    }
}

} // verus!
