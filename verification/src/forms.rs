use vstd::prelude::*;

use crate::token::str_eq;

verus! {

// ---------------------------------------------------------------------------
// The static table of grammatical-form tags: segmenter conjugation-form
// labels mapped to short display names. An unmapped label stands for
// itself.
// ---------------------------------------------------------------------------
pub open spec fn spec_get_form(f: Seq<char>) -> Seq<char> {
    if f == "*"@ {
        "*"@
    } else if f == "タ形"@ {
        "Past"@
    } else if f == "ダ列タ形"@ {
        "Past"@
    } else if f == "タ系連用テ形"@ {
        "Te-form"@
    } else if f == "ダ列タ系連用テ形"@ {
        "Te-form"@
    } else if f == "タ系連用タリ形"@ {
        "Tari-form"@
    } else if f == "命令形"@ {
        "Imperative"@
    } else if f == "意志形"@ {
        "Volitional"@
    } else if f == "基本条件形"@ {
        ""@
    } else {
        f
    }
}

/// The display name of one conjugation-form tag, or the tag itself where
/// the table does not know it.
pub fn get_form<'a>(form: &'a str) -> (r: &'a str)
    ensures
        r@ == spec_get_form(form@),
{
    if str_eq(form, "*") {
        "*"
    } else if str_eq(form, "タ形") {
        "Past"
    } else if str_eq(form, "ダ列タ形") {
        "Past"
    } else if str_eq(form, "タ系連用テ形") {
        "Te-form"
    } else if str_eq(form, "ダ列タ系連用テ形") {
        "Te-form"
    } else if str_eq(form, "タ系連用タリ形") {
        "Tari-form"
    } else if str_eq(form, "命令形") {
        "Imperative"
    } else if str_eq(form, "意志形") {
        "Volitional"
    } else if str_eq(form, "基本条件形") {
        ""
    } else {
        form
    }
}

} // verus!
