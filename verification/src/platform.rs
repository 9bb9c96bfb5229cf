//! Target platforms, as the `cargo-platform` crate reads them.

use vstd::prelude::*;

use crate::text::texts;

verus! {

/// The text of the error that reading a line of `rustc --print cfg` gives, if it gives one.
pub uninterp spec fn cfg_fault(line: Seq<char>) -> Option<Seq<char>>;

/// Whether a target selector selects the target with the given name and cfg lines, or the text of
/// the error that reading the selector gives.
pub uninterp spec fn selects(selector: Seq<char>, triple: Seq<char>, cfg: Seq<Seq<char>>) -> Result<
    bool,
    Seq<char>,
>;

/// `str::parse` for `cargo_platform::Cfg`: whether a line can be read, and the text of the error,
/// are functions of the line.
#[verifier::external_body]
pub(crate) fn check_cfg(line: &str) -> (result: Result<(), String>)
    ensures
        match result {
            Ok(()) => cfg_fault(line@) is None,
            Err(fault) => cfg_fault(line@) == Some(fault@),
        },
{
    match line.parse::<cargo_platform::Cfg>() {
        Ok(_) => Ok(()),
        Err(error) => Err(error.to_string()),
    }
}

/// `str::parse` for `cargo_platform::Platform`, and its `matches`: a function of the selector, the
/// target's name and its cfg lines. A selector that does not start with `cfg(` is a name, and selects
/// the target of that name.
#[verifier::external_body]
pub(crate) fn selector_matches(selector: &str, triple: &str, cfg: &Vec<String>) -> (result: Result<
    bool,
    String,
>)
    requires
        forall|i: int| 0 <= i < cfg@.len() ==> cfg_fault(#[trigger] cfg@[i]@) is None,
    ensures
        match result {
            Ok(matches) => selects(selector@, triple@, texts(cfg@)) == Ok::<bool, Seq<char>>(
                matches,
            ),
            Err(fault) => selects(selector@, triple@, texts(cfg@)) == Err::<bool, Seq<char>>(fault@),
        },
        result is Ok && !"cfg("@.is_prefix_of(selector@) ==> result->Ok_0 == (selector@ == triple@),
{
    let cfg: Vec<cargo_platform::Cfg> = cfg.iter().map(|line| line.parse().unwrap()).collect();
    match selector.parse::<cargo_platform::Platform>() {
        Ok(platform) => Ok(platform.matches(triple, &cfg)),
        Err(error) => Err(error.to_string()),
    }
}

} // verus!
