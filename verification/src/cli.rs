//! Which files of a subscription directory tree are download scripts, and for
//! which proxy kind.
use vstd::prelude::*;

use crate::error::PassageError;
use crate::serv_info::{load_outcome, load_warnings, result_matches, ServInfo};
use crate::text::{eq_ignore_ascii_case, opt_str_view, str_eq_ignore_ascii_case, str_to_lowercase, unicode_lowercase};

verus! {

broadcast use vstd::string::group_string_axioms;

/// The arguments of the command that collects all subscription links.
pub struct ArgGetAllSubscriptionLinks {
    /// The root of the directory tree to walk.
    pub dir: String,
    /// The names of the top-level directories to enter, compared ignoring ASCII case.
    pub allowd: Vec<String>,
}

/// An entry whose path below the root starts with `first` (none for the root
/// itself) is walked: its first component is one of `allowed`, up to ASCII case.
pub open spec fn dir_allowed(first: Option<Seq<char>>, allowed: Seq<Seq<char>>) -> bool {
    match first {
        None => true,
        Some(name) => exists|i: int| 0 <= i < allowed.len() && eq_ignore_ascii_case(#[trigger] allowed[i], name),
    }
}

/// Whether the walk enters an entry whose path below `opt.dir` starts with the
/// component `first_component` (`None` for the root itself).
pub fn entry_in_allowed_dirs(first_component: Option<&str>, opt: &ArgGetAllSubscriptionLinks) -> (r: bool)
    ensures
        r == dir_allowed(opt_str_view(first_component), opt.allowd@.map_values(|a: String| a@)),
{
    let name = match first_component {
        None => {
            return true;
        },
        Some(n) => n,
    };
    let ghost allowed = opt.allowd@.map_values(|a: String| a@);
    let mut i: usize = 0;
    while i < opt.allowd.len()
        invariant
            i <= opt.allowd@.len(),
            allowed == opt.allowd@.map_values(|a: String| a@),
            opt_str_view(first_component) == Some(name@),
            forall|j: int| 0 <= j < i ==> !eq_ignore_ascii_case(#[trigger] allowed[j], name@),
        decreases opt.allowd.len() - i,
    {
        if str_eq_ignore_ascii_case(opt.allowd[i].as_str(), name) {
            assert(eq_ignore_ascii_case(allowed[i as int], name@));
            return true;
        }
        i = i + 1;
    }
    false
}

/// What to do with an entry of the walk.
#[derive(PartialEq, Eq, Structural, Debug, Clone, Copy)]
pub enum EntryKind {
    /// Not a download script.
    Skip,
    /// A download script of a Mieru configuration.
    Mieru,
    /// A download script of a Hysteria2 configuration.
    Hysteria2,
    /// A download script under a directory of another name.
    OtherProvider,
    /// A download script whose directory has no parent name.
    NoProvider,
}

/// An entry is a download script when it is a file with the extension `bat`
/// in a directory named `ip_update` (both up to ASCII case); the lower-cased
/// name of the directory above decides the proxy kind.
pub open spec fn entry_kind(
    is_file: bool,
    extension: Option<Seq<char>>,
    parent_name: Option<Seq<char>>,
    grandparent_name: Option<Seq<char>>,
) -> EntryKind {
    let is_bat = extension matches Some(e) && eq_ignore_ascii_case(e, "bat"@);
    let in_update_dir = parent_name matches Some(p) && eq_ignore_ascii_case(p, "ip_update"@);
    if !(is_file && is_bat && in_update_dir) {
        EntryKind::Skip
    } else {
        match grandparent_name {
            None => EntryKind::NoProvider,
            Some(g) => if unicode_lowercase(g) == "mieru"@ {
                EntryKind::Mieru
            } else if unicode_lowercase(g) == "hysteria2"@ {
                EntryKind::Hysteria2
            } else {
                EntryKind::OtherProvider
            },
        }
    }
}

/// Classifies an entry of the walk (see [`entry_kind`]).
pub fn classify_entry(
    is_file: bool,
    extension: Option<&str>,
    parent_name: Option<&str>,
    grandparent_name: Option<&str>,
) -> (r: EntryKind)
    ensures
        r == entry_kind(
            is_file,
            opt_str_view(extension),
            opt_str_view(parent_name),
            opt_str_view(grandparent_name),
        ),
{
    let is_bat = match extension {
        Some(e) => str_eq_ignore_ascii_case(e, "bat"),
        None => false,
    };
    let in_update_dir = match parent_name {
        Some(p) => str_eq_ignore_ascii_case(p, "ip_update"),
        None => false,
    };
    if !(is_file && is_bat && in_update_dir) {
        return EntryKind::Skip;
    }
    match grandparent_name {
        None => EntryKind::NoProvider,
        Some(g) => {
            let lower = str_to_lowercase(g);
            if lower == "mieru".to_string() {
                EntryKind::Mieru
            } else if lower == "hysteria2".to_string() {
                EntryKind::Hysteria2
            } else {
                EntryKind::OtherProvider
            }
        },
    }
}

/// The step of the walk for a download script of kind `kind` whose
/// configuration is `content`: a Mieru configuration is loaded into `mieru`, a
/// Hysteria2 one into `hysteria2` (see [`ServInfo::load_config_field`]); any
/// other kind loads nothing and gives `None`.
pub fn load_entry_config(
    kind: EntryKind,
    content: &String,
    mieru: &mut ServInfo,
    hysteria2: &mut ServInfo,
    warnings: &mut Vec<String>,
) -> (r: Option<Result<(), PassageError>>)
    ensures
        kind == EntryKind::Mieru ==> {
            &&& final(mieru)@ == load_outcome(old(mieru)@, content@).0
            &&& r is Some && result_matches(r->0, load_outcome(old(mieru)@, content@).1)
            &&& final(hysteria2)@ == old(hysteria2)@
            &&& final(warnings)@.map_values(|w: String| w@) == old(warnings)@.map_values(|w: String| w@)
                + load_warnings(old(mieru)@, content@)
        },
        kind == EntryKind::Hysteria2 ==> {
            &&& final(hysteria2)@ == load_outcome(old(hysteria2)@, content@).0
            &&& r is Some && result_matches(r->0, load_outcome(old(hysteria2)@, content@).1)
            &&& final(mieru)@ == old(mieru)@
            &&& final(warnings)@.map_values(|w: String| w@) == old(warnings)@.map_values(|w: String| w@)
                + load_warnings(old(hysteria2)@, content@)
        },
        kind != EntryKind::Mieru && kind != EntryKind::Hysteria2 ==> {
            &&& r is None
            &&& final(mieru)@ == old(mieru)@
            &&& final(hysteria2)@ == old(hysteria2)@
            &&& final(warnings)@ == old(warnings)@
        },
{
    match kind {
        EntryKind::Mieru => Some(ServInfo::load_config_field(mieru, content, warnings)),
        EntryKind::Hysteria2 => Some(ServInfo::load_config_field(hysteria2, content, warnings)),
        _ => None,
    }
}

} // verus!
