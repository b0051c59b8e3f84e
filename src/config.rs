//! Which discovery strategies to run.

use vstd::prelude::*;

verus! {

/// Which strategies are enabled.
#[derive(Debug, Clone, Copy, PartialEq, Eq)]
pub struct Config {
    /// The `json.schemas` array of `.vscode/settings.json`.
    pub vscode: bool,
    /// `name.json` beside `name.schema.json`.
    pub suffix: bool,
}

/// The strategy `name` is enabled by the list `requested`: an empty list
/// enables every strategy, else the list must name it.
pub open spec fn enabled(requested: Seq<Seq<char>>, name: Seq<char>) -> bool {
    requested.len() == 0 || requested.contains(name)
}

/// `requested` names `name`.
fn names(requested: &Vec<String>, name: &str) -> (r: bool)
    ensures
        r == requested.deep_view().contains(name@),
{
    let target = String::from_str(name);
    let mut i: usize = 0;
    while i < requested.len()
        invariant
            target@ == name@,
            i <= requested.len(),
            forall|k: int| 0 <= k < i ==> requested@[k]@ != name@,
        decreases requested.len() - i,
    {
        if requested[i] == target {
            assert(requested.deep_view()[i as int] == name@);
            return true;
        }
        i = i + 1;
    }
    proof {
        if requested.deep_view().contains(name@) {
            let k = choose|k: int|
                0 <= k < requested.deep_view().len() && requested.deep_view()[k] == name@;
            assert(requested@[k]@ == name@);
        }
    }
    false
}

/// The configuration that the strategy names `requested` ask for: each of
/// `vscode` and `suffix` is enabled where the list names it, and both where
/// the list is empty.
pub fn get_config(requested: &Vec<String>) -> (r: Config)
    ensures
        r.vscode == enabled(requested.deep_view(), "vscode"@),
        r.suffix == enabled(requested.deep_view(), "suffix"@),
{
    let all = requested.len() == 0;
    let vscode = names(requested, "vscode") || all;
    let suffix = names(requested, "suffix") || all;
    Config { vscode, suffix }
}

} // verus!
