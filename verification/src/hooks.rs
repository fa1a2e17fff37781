//! The decision logic of every plugin hook.
//!
//! Hooks that decline participation return their fixed neutral or negative
//! result here. The two active hooks are split from the host calls that
//! surround them: the adapter asks `post_edit_matches` whether to fetch,
//! hands the fetched item to `post_edit_apply`, and persists what comes
//! back; it asks `route_post_handles` whether the import route is meant,
//! performs the role check, and hands the verdict to `route_post_import`,
//! persisting the item of a `Persist` outcome.

use vstd::prelude::*;
use std::collections::HashMap;
use crate::item::Item;
use crate::query::spec_query_id;
use crate::query::parse_query_id;
use crate::text::str_eq;

verus! {

/// A pass/fail flag with a human-readable message, returned from the
/// pre-edit hook to let the host decide whether to proceed.
pub struct ProcessResult {
    pub succeeded: bool,
    pub error: String,
}

/// The outcome of an HTTP-triggered hook, telling the host how to respond.
#[derive(Clone, Copy, PartialEq, Eq, Debug, Structural)]
pub enum WebResponse {
    Success,
    BadRequest,
    Unauthorized,
    NotImplemented,
}

/// What the import route decided: reject the caller, reject the query, or
/// persist the given item into the `config` collection and report success.
pub enum ImportOutcome {
    Unauthorized,
    BadRequest,
    Persist(Item),
}

/// Pre-edit hook: always declines, so the host must not rely on this
/// plugin to approve edits.
pub fn item_pre_edit_hook(
    hndl: &str,
    user: &Option<Item>,
    collection: &str,
    old_itm: Option<Item>,
    itm: &mut Item,
    del: bool,
    merge: bool,
) -> (r: ProcessResult)
    ensures
        !r.succeeded,
        r.error@ == "not implemented"@,
        *final(itm) == *old(itm),
{
    ProcessResult { succeeded: false, error: "not implemented".to_owned() }
}

/// Auth hook: a permissive stub that allows every access.
pub fn item_auth_hook(
    hndl: &str,
    user: &Option<Item>,
    collection: &str,
    id: u64,
    itm: Option<Item>,
    del: bool,
) -> (r: bool)
    ensures
        r,
{
    true
}

/// List filter hook: passes the mapping through unmodified.
pub fn item_list_filter_hook(
    hndl: &str,
    user: &Option<Item>,
    collection: &str,
    context: &str,
    map: &mut HashMap<u64, Item>,
)
    ensures
        *final(map) == *old(map),
{
}

/// Protected GET-style route hook: always declines.
pub fn route_url_hook(hndl: &str, user: &Option<Item>, query: &str) -> (r: WebResponse)
    ensures
        r == WebResponse::NotImplemented,
{
    WebResponse::NotImplemented
}

/// Unprotected GET-style route hook: always declines.
pub fn route_unprotected_url_hook(hndl: &str, user: &Option<Item>, query: &str) -> (r:
    WebResponse)
    ensures
        r == WebResponse::NotImplemented,
{
    WebResponse::NotImplemented
}

/// Unprotected POST-style route hook: always declines.
pub fn route_unprotected_url_post_hook(
    hndl: &str,
    user: &Option<Item>,
    query: &str,
    itm: &Item,
) -> (r: WebResponse)
    ensures
        r == WebResponse::NotImplemented,
{
    WebResponse::NotImplemented
}

/// Collection read hook: declines to intercept the read and leaves the item
/// untouched.
pub fn collection_read_hook(hndl: &str, collection: &str, itm: &mut Item) -> (r: bool)
    ensures
        !r,
        *final(itm) == *old(itm),
{
    false
}

/// Whether the post-edit hook acts: only for its fixed event identifier, on
/// the `config` collection, and only after a deletion. On any other
/// invocation the hook neither reads nor writes the database.
pub fn post_edit_matches(hndl: &str, collection: &str, del: bool) -> (b: bool)
    ensures
        b == (hndl@ == "sampleplugin_post_edit"@ && collection@ == "config"@ && del),
{
    del && str_eq(hndl, "sampleplugin_post_edit") && str_eq(collection, "config")
}

/// The two-state toggle of the `xml` field: an absent, empty or `old` value
/// becomes `new`; any other value becomes `old`.
pub open spec fn toggled_xml(v: Seq<char>) -> Seq<char> {
    if v == ""@ || v == "old"@ {
        "new"@
    } else {
        "old"@
    }
}

/// The `xml` field of a field mapping, defaulting to empty.
pub open spec fn xml_of(m: Map<Seq<char>, Seq<char>>) -> Seq<char> {
    if m.contains_key("xml"@) {
        m["xml"@]
    } else {
        ""@
    }
}

/// Toggle a single `xml` field value.
pub fn toggle_xml_value(v: &str) -> (r: String)
    ensures
        r@ == toggled_xml(v@),
{
    if str_eq(v, "") || str_eq(v, "old") {
        "new".to_owned()
    } else {
        "old".to_owned()
    }
}

/// From either of the two values the toggle itself produces, applying it
/// twice leads back to the starting value.
pub proof fn lemma_toggle_round_trip(v: Seq<char>)
    requires
        v == "old"@ || v == "new"@,
    ensures
        toggled_xml(toggled_xml(v)) == v,
{
    reveal_strlit("");
    reveal_strlit("old");
    reveal_strlit("new");
}

/// Firing the matched post-edit hook twice on a stored item whose `xml`
/// field holds either of the two values the toggle produces leads back to
/// the starting field mapping: the first firing toggles the field, the
/// second toggles it back.
pub proof fn lemma_post_edit_round_trip(m: Map<Seq<char>, Seq<char>>)
    requires
        xml_of(m) == "old"@ || xml_of(m) == "new"@,
        m.contains_key("xml"@),
    ensures
        ({
            let once = m.insert("xml"@, toggled_xml(xml_of(m)));
            let twice = once.insert("xml"@, toggled_xml(xml_of(once)));
            twice == m
        }),
{
    lemma_toggle_round_trip(xml_of(m));
    let once = m.insert("xml"@, toggled_xml(xml_of(m)));
    let twice = once.insert("xml"@, toggled_xml(xml_of(once)));
    assert(twice =~= m);
}

/// The matched post-edit hook's work on the fetched item: nothing when the
/// item was absent; otherwise the item with its `xml` field toggled, to be
/// persisted as a full replacement.
pub fn post_edit_apply(item_opt: Option<Item>) -> (r: Option<Item>)
    requires
        item_opt matches Some(it) ==> it.wf(),
    ensures
        item_opt is None ==> r is None,
        item_opt matches Some(it) ==> (r matches Some(out) && out.wf() && out.spec_id()
            == it.spec_id() && out.strs() == it.strs().insert(
            "xml"@,
            toggled_xml(xml_of(it.strs())),
        )),
{
    match item_opt {
        None => None,
        Some(mut item) => {
            let old_val = item.safe_str("xml", "");
            let new_val = toggle_xml_value(old_val.as_str());
            item.set_str("xml", new_val.as_str());
            Some(item)
        },
    }
}

/// Whether the POST-style protected route hook handles the event: only the
/// fixed import route identifier is served.
pub fn route_post_handles(hndl: &str) -> (b: bool)
    ensures
        b == (hndl@ == "sampleplugin_import"@),
{
    str_eq(hndl, "sampleplugin_import")
}

/// The import route's decision, given the host's verdict on the caller's
/// `admin` role, the request's query string, and the posted item.
///
/// A caller without the role is rejected and nothing is persisted. A
/// malformed `id` value is a bad request and nothing is persisted. Otherwise
/// the item to persist carries the parsed id (the reserved unset id when the
/// query names none) and a single `xml` field copied from the posted item.
pub fn route_post_import(is_admin: bool, query: &str, post_itm: &Item) -> (r: ImportOutcome)
    requires
        post_itm.wf(),
    ensures
        !is_admin ==> r is Unauthorized,
        is_admin && spec_query_id(query@) is None ==> r is BadRequest,
        is_admin && spec_query_id(query@) is Some ==> (r matches ImportOutcome::Persist(itm)
            && itm.wf() && Some(itm.spec_id()) == spec_query_id(query@) && itm.strs()
            == Map::<Seq<char>, Seq<char>>::empty().insert("xml"@, xml_of(post_itm.strs()))),
{
    if !is_admin {
        return ImportOutcome::Unauthorized;
    }
    let id_opt = parse_query_id(query);
    match id_opt {
        None => ImportOutcome::BadRequest,
        Some(id) => {
            let input_xml = post_itm.safe_str("xml", "");
            let mut itm = Item::new();
            itm.set_id(id);
            itm.set_str("xml", input_xml.as_str());
            ImportOutcome::Persist(itm)
        },
    }
}

/// The client-visible response for each import outcome: `Success` once the
/// persisted write is done, and the matching rejection otherwise.
pub fn import_response(r: &ImportOutcome) -> (w: WebResponse)
    ensures
        r is Unauthorized ==> w == WebResponse::Unauthorized,
        r is BadRequest ==> w == WebResponse::BadRequest,
        r is Persist ==> w == WebResponse::Success,
{
    match r {
        ImportOutcome::Unauthorized => WebResponse::Unauthorized,
        ImportOutcome::BadRequest => WebResponse::BadRequest,
        ImportOutcome::Persist(_) => WebResponse::Success,
    }
}

} // verus!
