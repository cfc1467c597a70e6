//! The active-model store: how the persisted selection resolves to a model
//! name. Reading and writing the file itself is the caller's business; the
//! rules for what the file's contents mean live here.

use vstd::prelude::*;

use crate::text::is_space;
use crate::text::skip_space_from;
use crate::text::skip_space_rev;
use crate::text::trim_spec;
use crate::text::trim_str;

verus! {

/// The model assumed when no choice has been persisted.
pub open spec fn spec_default_model() -> Seq<char> {
    "small-en-us"@
}

/// What a persisted value resolves to: the trimmed content where that is
/// non-blank, else the fixed default. `None` stands for an absent or
/// unreadable file.
pub open spec fn resolve_model(content: Option<Seq<char>>) -> Seq<char> {
    match content {
        None => spec_default_model(),
        Some(c) => if trim_spec(c).len() == 0 {
            spec_default_model()
        } else {
            trim_spec(c)
        },
    }
}

/// The currently active model, given what the persisted file holds (`None`
/// when the file is absent or unreadable).
pub fn get_active_model(content: Option<&str>) -> (r: String)
    ensures
        r@ == resolve_model(
            match content {
                Some(c) => Some(c@),
                None => None,
            },
        ),
{
    match content {
        None => "small-en-us".to_owned(),
        Some(c) => {
            let t = trim_str(c);
            if t.unicode_len() == 0 {
                "small-en-us".to_owned()
            } else {
                t.to_owned()
            }
        },
    }
}

/// Law: a name persisted as written comes back unchanged — provided it is
/// non-empty and carries no leading or trailing whitespace, since the store
/// trims what it reads and falls back to the default on blank content.
pub proof fn lemma_store_round_trip(name: Seq<char>)
    requires
        name.len() > 0,
        !is_space(name[0]),
        !is_space(name[name.len() - 1]),
    ensures
        resolve_model(Some(name)) == name,
{
    assert(skip_space_from(name, 0, name.len() as int) == 0);
    assert(skip_space_rev(name, name.len() as int) == name.len() as int);
    assert(trim_spec(name) =~= name);
}

} // verus!
