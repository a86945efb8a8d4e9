use vstd::prelude::*;

verus! {

/// The decimal digit for `d < 10`.
pub open spec fn digit_char(d: nat) -> char {
    if d == 0 { '0' } else if d == 1 { '1' } else if d == 2 { '2' } else if d == 3 { '3' }
    else if d == 4 { '4' } else if d == 5 { '5' } else if d == 6 { '6' } else if d == 7 { '7' }
    else if d == 8 { '8' } else { '9' }
}

/// `n` in decimal, without sign or leading zeros.
pub open spec fn decimal(n: nat) -> Seq<char>
    decreases n,
{
    if n < 10 { seq![digit_char(n)] } else { decimal(n / 10).push(digit_char(n % 10)) }
}

/// Relies on u16's Display impl (through ToString): the number in decimal.
#[verifier::external_body]
fn port_text(port: u16) -> (r: String)
    ensures
        r@ == decimal(port as nat),
{
    port.to_string()
}

/// The arguments that start a worker: unbuffered output, the entry script,
/// the workspace and the port to listen on.
pub open spec fn worker_argv(script: Seq<char>, workspace: Seq<char>, port: u16) -> Seq<Seq<char>> {
    seq!["-u"@, script, "--workspace"@, workspace, "--port"@, decimal(port as nat)]
}

/// The command-line arguments for a worker running `script` for the
/// workspace at `vault_path`, listening on `port`.
pub fn worker_args(script: &str, vault_path: &str, port: u16) -> (r: Vec<String>)
    ensures
        crate::table::texts(r@) == worker_argv(script@, vault_path@, port),
{
    let mut r: Vec<String> = Vec::new();
    r.push(String::from_str("-u"));
    r.push(script.to_owned());
    r.push(String::from_str("--workspace"));
    r.push(vault_path.to_owned());
    r.push(String::from_str("--port"));
    r.push(port_text(port));
    proof {
        assert(crate::table::texts(r@) =~= worker_argv(script@, vault_path@, port));
    }
    r
}

/// The first of `candidates`, tried in order, for which
/// `answers_version_probe` holds; `None` when every candidate fails it.
pub fn find_executable<F: Fn(&String) -> bool>(candidates: &Vec<String>, answers_version_probe: F) -> (r: Option<String>)
    requires
        forall|i: int| 0 <= i < candidates@.len() ==> answers_version_probe.requires((&candidates@[i],)),
    ensures
        match r {
            Some(exe) => exists|i: int| 0 <= i < candidates@.len()
                && exe@ == candidates@[i]@
                && #[trigger] answers_version_probe.ensures((&candidates@[i],), true)
                && forall|j: int| 0 <= j < i ==> answers_version_probe.ensures((&candidates@[j],), false),
            None => forall|i: int| 0 <= i < candidates@.len() ==> answers_version_probe.ensures((&candidates@[i],), false),
        },
{
    let mut i: usize = 0;
    while i < candidates.len()
        invariant
            0 <= i <= candidates@.len(),
            forall|k: int| 0 <= k < candidates@.len() ==> answers_version_probe.requires((&candidates@[k],)),
            forall|j: int| 0 <= j < i ==> answers_version_probe.ensures((&candidates@[j],), false),
        decreases candidates@.len() - i,
    {
        if answers_version_probe(&candidates[i]) {
            return Some(candidates[i].clone());
        }
        i += 1;
    }
    None
}

/// The worker runtimes to try, in order, on Windows or elsewhere.
pub open spec fn runtime_names(windows: bool) -> Seq<Seq<char>> {
    if windows { seq!["python.exe"@, "python3.exe"@] } else { seq!["python3"@, "python"@] }
}

/// The executable names under which the worker runtime is looked for, in
/// the order they are tried.
pub fn runtime_candidates(windows: bool) -> (r: Vec<String>)
    ensures
        crate::table::texts(r@) == runtime_names(windows),
{
    let mut r: Vec<String> = Vec::new();
    if windows {
        r.push(String::from_str("python.exe"));
        r.push(String::from_str("python3.exe"));
    } else {
        r.push(String::from_str("python3"));
        r.push(String::from_str("python"));
    }
    proof {
        assert(crate::table::texts(r@) =~= runtime_names(windows));
    }
    r
}

} // verus!
