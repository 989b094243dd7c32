//! Imports the environment that a user's login shell sets up into the
//! calling process: the shell is run once, its `env` dump is cut out of its
//! output, parsed into records and filtered against an allow-list.
use vstd::prelude::*;

pub mod error;
pub mod frame;
pub mod merge;
pub mod records;
pub mod shell;
pub mod text;

pub use error::Error;
pub use frame::{extract_frame, DELIMITER};
pub use merge::{is_allowed, select_records, EnvTable};
pub use records::{parse_records, EnvRecord};
pub use shell::{shell_target, Platform, ShellTarget};

use frame::frame_of;
use merge::{allowed, applied, lemma_applied_keys, lemma_selected_keys_allowed, names, selected};
use records::{records_of, views};
use text::{ansi_stripped, decode_lossy, lossy_text, strip_escapes};

verus! {

/// What running the shell gave: its exit code (`None` where a signal ended
/// it) and the bytes it wrote to standard output and standard error.
#[derive(Debug)]
pub struct CaptureResult {
    pub exit_code: Option<i32>,
    pub stdout: Vec<u8>,
    pub stderr: Vec<u8>,
}

impl CaptureResult {
    /// Whether the shell exited with status zero.
    pub open spec fn succeeded(&self) -> bool {
        self.exit_code == Some(0i32)
    }
}

/// The records to import from a shell's standard output, or `None` where it
/// holds no frame.
pub open spec fn imported(vars: Seq<Seq<char>>, stdout: Seq<u8>) -> Option<
    Seq<(Seq<char>, Seq<char>)>,
> {
    match frame_of(lossy_text(stdout), DELIMITER@) {
        None => None,
        Some(f) => Some(selected(records_of(lossy_text(ansi_stripped(f))), vars)),
    }
}

/// The outcome owed for an allow-list and what running the shell gave.
pub open spec fn fix_outcome(
    vars: Seq<Seq<char>>,
    capture: Result<CaptureResult, std::io::Error>,
    r: Result<Vec<EnvRecord>, Error>,
) -> bool {
    match capture {
        Err(e) => r matches Err(Error::Shell(x)) && x == e,
        Ok(c) => if !c.succeeded() {
            r matches Err(Error::EchoFailed(m)) && m@ == lossy_text(c.stderr@)
        } else {
            match imported(vars, c.stdout@) {
                None => r matches Err(Error::InvalidOutput(t)) && t@ == lossy_text(c.stdout@),
                Some(rs) => r matches Ok(v) && views(v@) == rs,
            }
        },
    }
}

/// Whatever the shell printed, an import sets only variables that the
/// allow-list admits: every imported record has an admitted key, and merging
/// the records leaves every other variable as it was.
pub proof fn lemma_imported_keys_allowed(
    vars: Seq<Seq<char>>,
    stdout: Seq<u8>,
    env: Map<Seq<char>, Seq<char>>,
)
    ensures
        imported(vars, stdout) matches Some(rs) ==> {
            &&& forall|i: int| 0 <= i < rs.len() ==> allowed(vars, #[trigger] rs[i].0)
            &&& forall|k: Seq<char>|
                !allowed(vars, k) ==> #[trigger] applied(env, rs).contains_key(k)
                    == env.contains_key(k) && applied(env, rs)[k] == env[k]
        },
{
    if let Some(rs) = imported(vars, stdout) {
        let f = frame_of(lossy_text(stdout), DELIMITER@)->Some_0;
        lemma_selected_keys_allowed(records_of(lossy_text(ansi_stripped(f))), vars);
        assert forall|k: Seq<char>| !allowed(vars, k) implies #[trigger] applied(
            env,
            rs,
        ).contains_key(k) == env.contains_key(k) && applied(env, rs)[k] == env[k] by {
            lemma_applied_keys(env, env, rs, k);
            assert forall|i: int| 0 <= i < rs.len() implies #[trigger] rs[i].0 != k by {
                assert(allowed(vars, rs[i].0));
            }
        }
    }
}

/// The records of a cleaned frame that the allow-list admits, in order.
pub fn records_to_import(frame: &str, vars: &[String]) -> (r: Vec<EnvRecord>)
    ensures
        views(r@) == selected(records_of(frame@), names(vars@)),
{
    let records = parse_records(frame);
    select_records(&records, vars)
}

/// Given what running the shell gave, the variables to set, in order, so
/// that the process gets the shell's values of the variables in `vars` (of
/// all variables where `vars` is empty).
pub fn fix_vars(vars: &[String], capture: Result<CaptureResult, std::io::Error>) -> (r: Result<
    Vec<EnvRecord>,
    Error,
>)
    ensures
        fix_outcome(names(vars@), capture, r),
{
    let c = match capture {
        Err(e) => {
            return Err(Error::Shell(e));
        },
        Ok(c) => c,
    };
    let succeeded = match c.exit_code {
        Some(code) => code == 0,
        None => false,
    };
    if !succeeded {
        return Err(Error::EchoFailed(decode_lossy(c.stderr.as_slice())));
    }
    let stdout = decode_lossy(c.stdout.as_slice());
    let frame = match extract_frame(stdout.as_str(), DELIMITER) {
        Err(e) => {
            return Err(e);
        },
        Ok(f) => f,
    };
    let cleaned = decode_lossy(strip_escapes(frame.as_str()).as_slice());
    Ok(records_to_import(cleaned.as_str(), vars))
}

/// [`fix_vars`] for `PATH` alone.
pub fn fix(capture: Result<CaptureResult, std::io::Error>) -> (r: Result<Vec<EnvRecord>, Error>)
    ensures
        fix_outcome(seq!["PATH"@], capture, r),
{
    let vars = vec!["PATH".to_owned()];
    assert(names(vars@) =~= seq!["PATH"@]);
    fix_vars(vars.as_slice(), capture)
}

/// [`fix_vars`] for every variable.
pub fn fix_all_vars(capture: Result<CaptureResult, std::io::Error>) -> (r: Result<
    Vec<EnvRecord>,
    Error,
>)
    ensures
        fix_outcome(Seq::empty(), capture, r),
{
    let vars: Vec<String> = Vec::new();
    assert(names(vars@) =~= Seq::<Seq<char>>::empty());
    fix_vars(vars.as_slice(), capture)
}

} // verus!
