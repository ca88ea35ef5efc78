//! Healing a `config.toml` stranded in the data dir.
//!
//! An older release could write `config.toml` into the data dir while the
//! CLI kept its config in the config dir. This module decides how to relocate
//! such a stray file losslessly: when the canonical config is absent or empty
//! the stray copy is adopted as the canonical config; when the canonical
//! config is present the stray copy is moved aside to
//! `config.toml.superseded` in the data dir. The caller probes the files and
//! performs the move.

use vstd::prelude::*;
use crate::text::{chars_of, push_chars, string_from_chars};

verus! {

/// What the heal pass does with the stray data-dir `config.toml`.
#[derive(Debug, Clone, Copy, PartialEq, Eq, Structural)]
pub enum HealAction {
    /// The stray copy becomes the canonical config (canonical was absent or
    /// empty).
    Adopted,
    /// The canonical config already exists; the stray copy is moved aside.
    Superseded,
}

/// Outcome of a config-heal pass.
#[derive(Debug, Clone, PartialEq, Eq)]
pub struct ConfigHealReport {
    pub action: HealAction,
    /// The stray `config.toml` that is relocated out of the data dir.
    pub from: String,
    /// Where it lands: the canonical config (adopted) or the `.superseded`
    /// copy (superseded).
    pub to: String,
}

/// Whether two path strings name the same path, as `Path`'s `==` decides it
/// (component-wise, so `a/b/` and `a//b` equal `a/b`).
pub uninterp spec fn same_path(a: Seq<char>, b: Seq<char>) -> bool;

/// Compares two paths with `std::path::Path`'s `==`; the contract names the
/// result, a function of the two strings, and states that equal strings are
/// equal paths.
#[verifier::external_body]
pub(crate) fn paths_equal(a: &str, b: &str) -> (r: bool)
    ensures
        r == same_path(a@, b@),
        a@ == b@ ==> r,
{
    std::path::Path::new(a) == std::path::Path::new(b)
}

/// `dir` joined with the relative file name `name`, as `Path::join` does it on
/// Unix: a separator is inserted unless `dir` is empty or already ends in one.
pub open spec fn join_path(dir: Seq<char>, name: Seq<char>) -> Seq<char> {
    if dir.len() == 0 || dir.last() == '/' {
        dir + name
    } else {
        dir + seq!['/'] + name
    }
}

fn join_name(dir: &str, name: &str) -> (r: String)
    ensures
        r@ == join_path(dir@, name@),
{
    let mut out = chars_of(dir);
    if out.len() > 0 && out[out.len() - 1] != '/' {
        out.push('/');
    }
    let n = chars_of(name);
    push_chars(&mut out, n.as_slice());
    string_from_chars(out.as_slice())
}

/// The `config.toml` inside `dir`.
pub fn config_file_in(dir: &str) -> (r: String)
    ensures
        r@ == join_path(dir@, "config.toml"@),
{
    join_name(dir, "config.toml")
}

/// The `config.toml.superseded` inside `dir`.
pub fn superseded_file_in(dir: &str) -> (r: String)
    ensures
        r@ == join_path(dir@, "config.toml.superseded"@),
{
    join_name(dir, "config.toml.superseded")
}

/// The relocation [`heal`] decides: `(action, from, to)`, or `None` when there
/// is nothing to do.
pub open spec fn heal_plan(
    config_dir: Seq<char>,
    data_dir: Seq<char>,
    stray_has_content: bool,
    canonical_has_content: bool,
) -> Option<(HealAction, Seq<char>, Seq<char>)> {
    if same_path(config_dir, data_dir) || !stray_has_content {
        None
    } else if canonical_has_content {
        Some(
            (
                HealAction::Superseded,
                join_path(data_dir, "config.toml"@),
                join_path(data_dir, "config.toml.superseded"@),
            ),
        )
    } else {
        Some(
            (
                HealAction::Adopted,
                join_path(data_dir, "config.toml"@),
                join_path(config_dir, "config.toml"@),
            ),
        )
    }
}

/// The stray file [`pending`] reports.
pub open spec fn pending_stray(
    config_dir: Seq<char>,
    data_dir: Seq<char>,
    stray_has_content: bool,
) -> Option<Seq<char>> {
    if same_path(config_dir, data_dir) || !stray_has_content {
        None
    } else {
        Some(join_path(data_dir, "config.toml"@))
    }
}

/// Decides the relocation of a stray data-dir `config.toml`.
///
/// `stray_has_content` tells whether `data_dir/config.toml` is a readable
/// file with non-whitespace content, `canonical_has_content` the same of
/// `config_dir/config.toml`. Returns `None` when there is nothing to do: a
/// single-dir layout (both dirs are the same path) or no stray config.
/// Otherwise the stray copy is adopted as the canonical config when that is
/// absent or empty, and moved aside to `config.toml.superseded` when it is
/// present.
pub fn heal(
    config_dir: &str,
    data_dir: &str,
    stray_has_content: bool,
    canonical_has_content: bool,
) -> (r: Option<ConfigHealReport>)
    ensures
        r is None <==> heal_plan(config_dir@, data_dir@, stray_has_content, canonical_has_content)
            is None,
        config_dir@ == data_dir@ ==> r is None,
        r matches Some(rep) ==> heal_plan(
            config_dir@,
            data_dir@,
            stray_has_content,
            canonical_has_content,
        ) == Some((rep.action, rep.from@, rep.to@)),
{
    if paths_equal(config_dir, data_dir) {
        return None;
    }
    if !stray_has_content {
        return None;
    }
    let stray = config_file_in(data_dir);
    if canonical_has_content {
        let aside = superseded_file_in(data_dir);
        return Some(ConfigHealReport { action: HealAction::Superseded, from: stray, to: aside });
    }
    let canonical = config_file_in(config_dir);
    Some(ConfigHealReport { action: HealAction::Adopted, from: stray, to: canonical })
}

/// Read-only check: the stray data-dir `config.toml` that [`heal`] would
/// relocate, or `None` when config and data dir are the same path or there
/// is no stray config with content.
pub fn pending(config_dir: &str, data_dir: &str, stray_has_content: bool) -> (r: Option<String>)
    ensures
        r is None <==> pending_stray(config_dir@, data_dir@, stray_has_content) is None,
        config_dir@ == data_dir@ ==> r is None,
        r matches Some(p) ==> pending_stray(config_dir@, data_dir@, stray_has_content) == Some(
            p@,
        ),
{
    if paths_equal(config_dir, data_dir) {
        return None;
    }
    if stray_has_content {
        Some(config_file_in(data_dir))
    } else {
        None
    }
}

/// `pending` reports exactly the file that `heal` would relocate, whatever
/// the state of the canonical config.
pub proof fn law_pending_matches_heal(
    config_dir: Seq<char>,
    data_dir: Seq<char>,
    stray_has_content: bool,
    canonical_has_content: bool,
)
    ensures
        pending_stray(config_dir, data_dir, stray_has_content) == match heal_plan(
            config_dir,
            data_dir,
            stray_has_content,
            canonical_has_content,
        ) {
            Some(plan) => Some(plan.1),
            None => None::<Seq<char>>,
        },
{
}

/// Healing is idempotent: once the stray file has been relocated out of the
/// data dir (no `config.toml` with content is left there), another pass does
/// nothing.
pub proof fn law_heal_idempotent(
    config_dir: Seq<char>,
    data_dir: Seq<char>,
    canonical_has_content: bool,
)
    ensures
        heal_plan(config_dir, data_dir, false, canonical_has_content) is None,
{
}

/// Healing is lossless: the stray copy is never dropped. It either becomes
/// the canonical config (only when that was absent or empty) or is kept next
/// to where it was, as `config.toml.superseded` in the data dir.
pub proof fn law_heal_lossless(
    config_dir: Seq<char>,
    data_dir: Seq<char>,
    stray_has_content: bool,
    canonical_has_content: bool,
)
    ensures
        heal_plan(config_dir, data_dir, stray_has_content, canonical_has_content) matches Some(
            plan,
        ) ==> {
            ||| plan.2 == join_path(config_dir, "config.toml"@) && !canonical_has_content
            ||| plan.2 == join_path(data_dir, "config.toml.superseded"@)
        },
{
}

} // verus!
