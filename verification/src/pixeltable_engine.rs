//! On-demand provisioning of a Python with `pixeltable` for the Pixeltable
//! source and sink.
//!
//! Pixeltable is a Python library, so there is no binary to fetch: a dedicated
//! virtual environment is made with uv, which brings its own standalone Python,
//! and `pixeltable` is installed into it. Everything lives under one folder of
//! the application's data, so nothing is installed into the user's environment
//! and removing that folder removes it completely.
use crate::paths::{join, under};
use crate::text::{glue2, join as join_texts, joined, lines, split_lines, texts, trim, trimmed};
use vstd::prelude::*;
use vstd::string::*;

verus! {

/// Where everything is kept.
pub open spec fn root_of(app_data: Seq<char>, windows: bool) -> Seq<char> {
    under(app_data, "pixeltable"@, windows)
}

/// Where everything is kept.
pub fn root(app_data: &str, windows: bool) -> (r: String)
    ensures
        r@ == root_of(app_data@, windows),
{
    join(app_data, "pixeltable", windows)
}

/// The virtual environment.
pub open spec fn venv_of(app_data: Seq<char>, windows: bool) -> Seq<char> {
    under(root_of(app_data, windows), "venv"@, windows)
}

/// The virtual environment.
pub fn venv_path(app_data: &str, windows: bool) -> (r: String)
    ensures
        r@ == venv_of(app_data@, windows),
{
    let dir = root(app_data, windows);
    join(dir.as_str(), "venv", windows)
}

/// The interpreter inside the virtual environment, which has another place on
/// Windows than elsewhere.
pub fn python_path(app_data: &str, windows: bool) -> (r: String)
    ensures
        r@ == if windows {
            under(under(venv_of(app_data@, windows), "Scripts"@, windows), "python.exe"@, windows)
        } else {
            under(under(venv_of(app_data@, windows), "bin"@, windows), "python"@, windows)
        },
{
    let venv = venv_path(app_data, windows);
    if windows {
        let dir = join(venv.as_str(), "Scripts", windows);
        join(dir.as_str(), "python.exe", windows)
    } else {
        let dir = join(venv.as_str(), "bin", windows);
        join(dir.as_str(), "python", windows)
    }
}

/// What uv is called with to make the virtual environment.
pub fn venv_args(venv: &str) -> (r: Vec<String>)
    ensures
        texts(r@) == seq!["venv"@, "--python"@, "3.12"@, venv@],
{
    let mut out: Vec<String> = Vec::new();
    out.push("venv".to_owned());
    out.push("--python".to_owned());
    out.push("3.12".to_owned());
    out.push(venv.to_owned());
    assert(texts(out@) =~= seq!["venv"@, "--python"@, "3.12"@, venv@]);
    out
}

/// What uv is called with to install into the virtual environment.
pub fn install_args(python: &str) -> (r: Vec<String>)
    ensures
        texts(r@) == seq!["pip"@, "install"@, "pixeltable"@, "--python"@, python@],
{
    let mut out: Vec<String> = Vec::new();
    out.push("pip".to_owned());
    out.push("install".to_owned());
    out.push("pixeltable".to_owned());
    out.push("--python".to_owned());
    out.push(python.to_owned());
    assert(texts(out@) =~= seq!["pip"@, "install"@, "pixeltable"@, "--python"@, python@]);
    out
}

/// The end of a long tool error: its last eight lines, the last first.
pub open spec fn end_of(s: Seq<char>) -> Seq<char> {
    let all = lines(trimmed(s)).reverse();
    joined(
        all.take(
            if all.len() < 8 {
                all.len() as int
            } else {
                8
            },
        ),
        " | "@,
    )
}

/// Keep the end of a long tool error, which is where the cause usually is.
pub fn tail(s: &str) -> (r: String)
    ensures
        r@ == end_of(s@),
{
    let bare = trim(s);
    let all = split_lines(bare.as_str());
    let total: usize = all.len();
    let ghost back = lines(trimmed(s@)).reverse();
    assert(texts(all@).len() == total);
    let shown: usize = if total < 8 {
        total
    } else {
        8
    };
    let mut out: Vec<String> = Vec::new();
    let mut i: usize = 0;
    while i < shown
        invariant
            i <= shown <= total,
            total == all@.len(),
            back == texts(all@).reverse(),
            out@.len() == i,
            forall|j: int| 0 <= j < i ==> (#[trigger] out@[j])@ == back[j],
        decreases shown - i,
    {
        out.push(all[total - 1 - i].clone());
        assert(back[i as int] == texts(all@)[total - 1 - i]);
        i = i + 1;
    }
    assert(texts(out@) =~= back.take(shown as int));
    join_texts(&out, " | ")
}

/// Whether the virtual environment has been made, with what uv had to say.
pub fn venv_made(success: bool, stderr: &str) -> (r: Result<(), String>)
    ensures
        r is Ok <==> success,
        r matches Err(e) ==> e@ == "uv venv failed: "@ + end_of(stderr@),
{
    if success {
        Ok(())
    } else {
        let end = tail(stderr);
        Err(glue2("uv venv failed: ", end.as_str()))
    }
}

/// Whether the installation has come to something: uv says so, and the
/// interpreter is there.
pub fn install_done(interpreter_exists: bool, success: bool, stderr: &str) -> (r: Result<(), String>)
    ensures
        r is Ok <==> interpreter_exists && success,
        r matches Err(e) ==> e@ == "installing pixeltable failed: "@ + end_of(stderr@),
{
    if interpreter_exists && success {
        Ok(())
    } else {
        let end = tail(stderr);
        Err(glue2("installing pixeltable failed: ", end.as_str()))
    }
}

/// What a tool said last: at most its last eight lines, the last one first.
pub proof fn law_what_a_tool_said_last(s: Seq<char>)
    ensures
        ({
            let all = lines(trimmed(s));
            let n = if all.len() < 8 {
                all.len()
            } else {
                8
            };
            end_of(s) == joined(Seq::new(n, |i: int| all[all.len() - 1 - i]), " | "@)
        }),
{
    let all = lines(trimmed(s));
    let n = if all.len() < 8 {
        all.len()
    } else {
        8
    };
    assert(all.reverse().take(n as int) == Seq::new(n, |i: int| all[all.len() - 1 - i]));
}

} // verus!
