//! The pip-mode driver.
//!
//! Same detection and compatibility logic as uv mode; only the install engine
//! differs. pip mode never downloads or invokes uv: it uses an interpreter that
//! already exists on the machine, `python -m venv`, and `pip install`.

use vstd::prelude::*;

use crate::engine::command::{Invocation, InvocationView};
use crate::engine::interpreter::{self, first_of, interpreter_views, Interpreter};
use crate::engine::platform::Os;
use crate::engine::uv::index_args;
use crate::pypi::pyversion::PyVersion;
use crate::text;

verus! {

pub open spec fn venv_python_spec(venv: Seq<char>, os: Os) -> Seq<char> {
    if os == Os::Windows {
        venv + "\\Scripts\\python.exe"@
    } else {
        venv + "/bin/python"@
    }
}

/// The venv's interpreter path, given the venv root.
pub fn venv_python(venv: &str, os: Os) -> (r: String)
    ensures
        r@ == venv_python_spec(venv@, os),
{
    let mut out = venv.to_string();
    if os == Os::Windows {
        out.append("\\Scripts\\python.exe");
    } else {
        out.append("/bin/python");
    }
    out
}

/// Create a venv at `venv` using an already-installed `interpreter`.
pub fn create_venv(interpreter: &Interpreter, venv: &str) -> (r: Invocation)
    ensures
        r@ == (InvocationView {
            program: interpreter@.command,
            args: seq!["-m"@, "venv"@, venv@],
        }),
{
    let args = text::strings(&["-m", "venv", venv]);
    proof {
        assert(text::texts(args@) =~= seq!["-m"@, "venv"@, venv@]);
    }
    Invocation { program: interpreter.command.clone(), args }
}

/// `python -m pip install -r requirements.txt` inside the venv.
pub fn install_requirements(venv: &str, os: Os, requirements: &str) -> (r: Invocation)
    ensures
        r@ == (InvocationView {
            program: venv_python_spec(venv@, os),
            args: seq!["-m"@, "pip"@, "install"@, "-r"@, requirements@],
        }),
{
    let args = text::strings(&["-m", "pip", "install", "-r", requirements]);
    proof {
        assert(text::texts(args@) =~= seq!["-m"@, "pip"@, "install"@, "-r"@, requirements@]);
    }
    Invocation { program: venv_python(venv, os), args }
}

/// `python -m pip install <pkgs...>` inside the venv.
pub fn install_packages(
    venv: &str,
    os: Os,
    packages: &Vec<String>,
    index_url: Option<&str>,
) -> (r: Invocation)
    ensures
        r@ == (InvocationView {
            program: venv_python_spec(venv@, os),
            args: seq!["-m"@, "pip"@, "install"@] + index_args(
                "--index-url"@,
                text::opt_str(index_url),
            ) + text::texts(packages@),
        }),
{
    let start = text::strings(&["-m", "pip", "install"]);
    proof {
        assert(text::texts(start@) =~= seq!["-m"@, "pip"@, "install"@]);
    }
    let args = crate::engine::uv::with_index(start, "--index-url", index_url, packages);
    Invocation { program: venv_python(venv, os), args }
}

/// `python -m pip freeze` inside the venv.
pub fn freeze_requirements(venv: &str, os: Os) -> (r: Invocation)
    ensures
        r@ == (InvocationView {
            program: venv_python_spec(venv@, os),
            args: seq!["-m"@, "pip"@, "freeze"@],
        }),
{
    let args = text::strings(&["-m", "pip", "freeze"]);
    proof {
        assert(text::texts(args@) =~= seq!["-m"@, "pip"@, "freeze"@]);
    }
    Invocation { program: venv_python(venv, os), args }
}

/// Pick an installed interpreter for the target version. Returns `None` when the
/// required Python isn't on the machine: pip mode can't fetch Pythons.
pub fn select_interpreter(interpreters: &[Interpreter], target: PyVersion) -> (r: Option<
    &Interpreter,
>)
    ensures
        match r {
            Some(found) => exists|i: int|
                first_of(interpreter_views(interpreters@), target, i) && *found
                    == #[trigger] interpreters@[i],
            None => forall|i: int|
                0 <= i < interpreters@.len() ==> (#[trigger] interpreters@[i]).version != target,
        },
{
    interpreter::find_version(interpreters, target)
}

/// The interpreter of a venv stands beneath the venv, where its system keeps it.
pub proof fn interpreters_stand_in_their_venv(venv: Seq<char>, os: Os)
    ensures
        venv.is_prefix_of(venv_python_spec(venv, os)),
        os == Os::Windows ==> venv_python_spec(venv, os) == venv + "\\Scripts\\python.exe"@,
        os == Os::Linux || os == Os::Macos ==> venv_python_spec(venv, os) == venv
            + "/bin/python"@,
{
    assert(venv_python_spec(venv, os).take(venv.len() as int) =~= venv);
}

} // verus!
