//! What the extensions panel shows of an extension: the badges of its
//! contributions, and whether its card matches a search.

use vstd::prelude::*;
use crate::extensions::ExtensionContributions;
use crate::text::{contains_str, seq_contains_sub, spec_lowercase, to_lowercase};

verus! {

/// `badge` when `present`, else nothing.
pub open spec fn badge_if(present: bool, badge: Seq<char>) -> Seq<Seq<char>> {
    if present { seq![badge] } else { Seq::empty() }
}

/// The badges of the contributions an extension makes, in this order:
/// status bar, theme, keybindings, commands, context menu, linter, hooks,
/// transforms, panel.
pub open spec fn badges_of(c: ExtensionContributions) -> Seq<Seq<char>> {
    badge_if(c.status_bar is Some, "Status Bar"@)
        + badge_if(c.css is Some, "Theme"@)
        + badge_if(c.keybindings@.len() > 0, "Keybindings"@)
        + badge_if(c.commands@.len() > 0, "Commands"@)
        + badge_if(c.context_menus is Some, "Context Menu"@)
        + badge_if(c.linters@.len() > 0, "Linter"@)
        + badge_if(c.hooks is Some, "Hooks"@)
        + badge_if(c.text_transforms@.len() > 0, "Transforms"@)
        + badge_if(c.sidebar_panels@.len() > 0, "Panel"@)
}

fn push_badge(badges: &mut Vec<&'static str>, present: bool, badge: &'static str)
    ensures
        final(badges)@.map_values(|s: &str| s@) == old(badges)@.map_values(|s: &str| s@) + badge_if(present, badge@),
{
    if present {
        badges.push(badge);
        assert(final(badges)@.map_values(|s: &str| s@) =~= old(badges)@.map_values(|s: &str| s@) + seq![badge@]);
    } else {
        assert(old(badges)@.map_values(|s: &str| s@) + Seq::<Seq<char>>::empty() =~= old(badges)@.map_values(|s: &str| s@));
    }
}

/// The badges shown on an extension's card (see `badges_of`).
pub fn collect_badges(contribs: &ExtensionContributions) -> (r: Vec<&'static str>)
    ensures
        r@.map_values(|s: &str| s@) == badges_of(*contribs),
{
    let mut badges: Vec<&'static str> = Vec::new();
    assert(badges@.map_values(|s: &str| s@) =~= Seq::<Seq<char>>::empty());
    push_badge(&mut badges, contribs.status_bar.is_some(), "Status Bar");
    push_badge(&mut badges, contribs.css.is_some(), "Theme");
    push_badge(&mut badges, contribs.keybindings.len() > 0, "Keybindings");
    push_badge(&mut badges, contribs.commands.len() > 0, "Commands");
    push_badge(&mut badges, contribs.context_menus.is_some(), "Context Menu");
    push_badge(&mut badges, contribs.linters.len() > 0, "Linter");
    push_badge(&mut badges, contribs.hooks.is_some(), "Hooks");
    push_badge(&mut badges, contribs.text_transforms.len() > 0, "Transforms");
    push_badge(&mut badges, contribs.sidebar_panels.len() > 0, "Panel");
    assert(badges@.map_values(|s: &str| s@) =~= badges_of(*contribs));
    badges
}

/// Whether a card whose labels read `label_texts` matches the (already
/// lowercased) search `query`: some label, lowercased, contains it.
pub fn card_matches_query(label_texts: &Vec<String>, query: &str) -> (r: bool)
    ensures
        r == exists|k: int| 0 <= k < label_texts@.len() && seq_contains_sub(spec_lowercase(#[trigger] label_texts@[k]@), query@),
{
    let mut i: usize = 0;
    while i < label_texts.len()
        invariant
            i <= label_texts@.len(),
            forall|k: int| 0 <= k < i ==> !seq_contains_sub(spec_lowercase(#[trigger] label_texts@[k]@), query@),
        decreases label_texts.len() - i,
    {
        let lower = to_lowercase(label_texts[i].as_str());
        if contains_str(lower.as_str(), query) {
            return true;
        }
        i = i + 1;
    }
    false
}

} // verus!
