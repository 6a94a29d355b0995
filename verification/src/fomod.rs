//! Installer descriptors.  A mod archive may carry a structured descriptor
//! offering selectable install options; resolving the selection is an
//! external collaborator's job (it parses the descriptor and asks the user),
//! and the chosen sub-trees are recorded as the mod's parts.  This module
//! holds the descriptor's data model and the small decisions the collaborator
//! defers to the library for.

use vstd::prelude::*;

use crate::utils::{lower_of, to_lower};

verus! {

/// How many plugins of a group may be selected.
#[derive(Debug, Clone, Copy)]
pub enum GroupType {
    SelectAny,
    SelectAll,
    SelectExactlyOne,
    SelectAtMostOne,
    SelectAtLeastOne,
}

/// One selectable option: the files it would install.
#[derive(Debug, Clone)]
pub struct Plugin {
    pub name: String,
    pub description: String,
    pub files: Vec<String>,
}

/// A group of options selected together under one rule.
#[derive(Debug, Clone)]
pub struct Group {
    pub name: String,
    pub ty: GroupType,
    pub plugins: Vec<Plugin>,
}

/// One step of a multi-step installer.
#[derive(Debug, Clone)]
pub struct InstallStep {
    pub name: String,
    pub groups: Vec<Group>,
}

/// A whole installer descriptor: files always installed, then the steps.
#[derive(Debug, Clone)]
pub struct Fomod {
    pub name: String,
    pub required: Vec<String>,
    pub install_steps: Vec<InstallStep>,
}

/// The file name that marks a multi-option installer inside an extracted
/// tree.
pub fn is_descriptor_name(name: &str) -> (r: bool)
    ensures
        r == (name@ == "ModuleConfig.xml"@),
{
    let a = name.to_owned();
    let b = "ModuleConfig.xml".to_owned();
    a == b
}

/// A plausible option directory of a makeshift multi-option installer: its
/// name starts with a decimal digit.
pub open spec fn spec_option_dir(name: Seq<char>) -> bool {
    name.len() > 0 && '0' <= name[0] <= '9'
}

/// Is this directory name offered as an install option?
pub fn is_option_dir(name: &str) -> (r: bool)
    ensures
        r == spec_option_dir(name@),
{
    let len: usize = name.unicode_len();
    if len == 0 {
        false
    } else {
        let c = name.get_char(0);
        '0' <= c && c <= '9'
    }
}

/// The lowered answer accepts the option.
pub open spec fn spec_accepts(answer: Seq<char>) -> bool {
    answer.len() > 0 && answer[0] == 'y'
}

/// The lowered answer declines the option.
pub open spec fn spec_declines(answer: Seq<char>) -> bool {
    answer.len() > 0 && answer[0] == 'n'
}

/// What one interactive answer chooses, case-insensitively: `Some(true)` to
/// install the option, `Some(false)` to skip it, `None` unrecognized — the
/// asker warns and the option is skipped.
pub fn answer_choice(answer: &str) -> (r: Option<bool>)
    ensures
        (r == Some(true)) <==> spec_accepts(lower_of(answer@)),
        (r == Some(false)) <==> (!spec_accepts(lower_of(answer@)) && spec_declines(
            lower_of(answer@),
        )),
        (r is None) <==> (!spec_accepts(lower_of(answer@)) && !spec_declines(lower_of(answer@))),
{
    let low = to_lower(answer);
    if low.as_str().unicode_len() == 0 {
        return None;
    }
    let c = low.as_str().get_char(0);
    if c == 'y' {
        Some(true)
    } else if c == 'n' {
        Some(false)
    } else {
        None
    }
}

} // verus!
