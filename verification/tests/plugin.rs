use sample_plugin::hooks::collection_read_hook;
use sample_plugin::hooks::import_response;
use sample_plugin::hooks::item_auth_hook;
use sample_plugin::hooks::item_list_filter_hook;
use sample_plugin::hooks::item_pre_edit_hook;
use sample_plugin::hooks::post_edit_apply;
use sample_plugin::hooks::post_edit_matches;
use sample_plugin::hooks::route_post_handles;
use sample_plugin::hooks::route_post_import;
use sample_plugin::hooks::route_url_hook;
use sample_plugin::hooks::route_unprotected_url_hook;
use sample_plugin::hooks::route_unprotected_url_post_hook;
use sample_plugin::hooks::toggle_xml_value;
use sample_plugin::hooks::ImportOutcome;
use sample_plugin::hooks::WebResponse;
use sample_plugin::item::unset_id;
use sample_plugin::item::Item;
use sample_plugin::item::UNSET_ID;
use sample_plugin::query::parse_query_id;
use std::collections::HashMap;

fn item_with_xml(xml: &str) -> Item {
    let mut itm = Item::new();
    itm.set_str("xml", xml);
    itm
}

#[test]
fn unset_id_is_max() {
    assert_eq!(unset_id(), u64::MAX);
    assert_eq!(UNSET_ID, u64::MAX);
}

#[test]
fn item_new_is_empty() {
    let itm = Item::new();
    assert_eq!(itm.id(), UNSET_ID);
    assert_eq!(itm.safe_str("xml", ""), "");
    assert_eq!(itm.safe_str("xml", "fallback"), "fallback");
}

#[test]
fn item_set_and_get_fields() {
    let mut itm = Item::new();
    itm.set_str("xml", "<a/>");
    itm.set_str("name", "sample");
    assert_eq!(itm.safe_str("xml", ""), "<a/>");
    assert_eq!(itm.safe_str("name", ""), "sample");
    itm.set_str("xml", "<b/>");
    assert_eq!(itm.safe_str("xml", ""), "<b/>");
    assert_eq!(itm.safe_str("name", ""), "sample");
    itm.set_id(7);
    assert_eq!(itm.id(), 7);
    assert_eq!(itm.safe_str("xml", ""), "<b/>");
}

#[test]
fn pre_edit_always_declines() {
    let mut itm = item_with_xml("<a/>");
    let r = item_pre_edit_hook("any_event", &None, "config", None, &mut itm, false, false);
    assert!(!r.succeeded);
    assert_eq!(r.error, "not implemented");
    assert_eq!(itm.safe_str("xml", ""), "<a/>");
    let r2 = item_pre_edit_hook("sampleplugin_post_edit", &Some(Item::new()), "jobs", None, &mut itm, true, true);
    assert!(!r2.succeeded);
    assert_eq!(r2.error, "not implemented");
}

#[test]
fn auth_hook_always_allows() {
    assert!(item_auth_hook("any_event", &None, "config", 1, None, false));
    assert!(item_auth_hook("other", &Some(Item::new()), "jobs", UNSET_ID, Some(Item::new()), true));
}

#[test]
fn list_filter_passes_mapping_through() {
    let mut map: HashMap<u64, Item> = HashMap::new();
    map.insert(3, item_with_xml("<a/>"));
    item_list_filter_hook("any_event", &None, "config", "ctx", &mut map);
    assert_eq!(map.len(), 1);
    assert_eq!(map.get(&3).unwrap().safe_str("xml", ""), "<a/>");
}

#[test]
fn route_hooks_decline() {
    assert_eq!(route_url_hook("any_event", &None, "id=1"), WebResponse::NotImplemented);
    assert_eq!(route_unprotected_url_hook("any_event", &None, ""), WebResponse::NotImplemented);
    let itm = item_with_xml("<a/>");
    assert_eq!(
        route_unprotected_url_post_hook("sampleplugin_import", &None, "id=1", &itm),
        WebResponse::NotImplemented
    );
}

#[test]
fn collection_read_declines_and_keeps_item() {
    let mut itm = item_with_xml("<a/>");
    assert!(!collection_read_hook("any_event", "config", &mut itm));
    assert_eq!(itm.safe_str("xml", ""), "<a/>");
}

#[test]
fn post_edit_matches_only_the_exact_triple() {
    assert!(post_edit_matches("sampleplugin_post_edit", "config", true));
    assert!(!post_edit_matches("other_event", "config", true));
    assert!(!post_edit_matches("sampleplugin_post_edit", "jobs", true));
    assert!(!post_edit_matches("sampleplugin_post_edit", "config", false));
    assert!(!post_edit_matches("", "", false));
}

#[test]
fn toggle_values() {
    assert_eq!(toggle_xml_value(""), "new");
    assert_eq!(toggle_xml_value("old"), "new");
    assert_eq!(toggle_xml_value("new"), "old");
    assert_eq!(toggle_xml_value("<a/>"), "old");
}

#[test]
fn toggle_round_trip_from_known_states() {
    let once = toggle_xml_value("old");
    assert_eq!(toggle_xml_value(&once), "old");
    let once = toggle_xml_value("new");
    assert_eq!(toggle_xml_value(&once), "new");
}

#[test]
fn post_edit_toggles_absent_field_to_new() {
    let mut itm = Item::new();
    itm.set_id(5);
    let out = post_edit_apply(Some(itm)).unwrap();
    assert_eq!(out.id(), 5);
    assert_eq!(out.safe_str("xml", ""), "new");
}

#[test]
fn post_edit_toggles_old_to_new_and_back() {
    let out = post_edit_apply(Some(item_with_xml("old"))).unwrap();
    assert_eq!(out.safe_str("xml", ""), "new");
    let back = post_edit_apply(Some(out)).unwrap();
    assert_eq!(back.safe_str("xml", ""), "old");
}

#[test]
fn post_edit_toggles_other_value_to_old() {
    let out = post_edit_apply(Some(item_with_xml("<a/>"))).unwrap();
    assert_eq!(out.safe_str("xml", ""), "old");
}

#[test]
fn post_edit_keeps_other_fields() {
    let mut itm = item_with_xml("old");
    itm.set_str("name", "sample");
    let out = post_edit_apply(Some(itm)).unwrap();
    assert_eq!(out.safe_str("xml", ""), "new");
    assert_eq!(out.safe_str("name", ""), "sample");
}

#[test]
fn post_edit_missing_item_is_noop() {
    assert!(post_edit_apply(None).is_none());
}

#[test]
fn route_post_handles_only_import() {
    assert!(route_post_handles("sampleplugin_import"));
    assert!(!route_post_handles("sampleplugin_export"));
    assert!(!route_post_handles(""));
}

#[test]
fn import_rejects_without_admin_role() {
    let posted = item_with_xml("<a/>");
    let r = route_post_import(false, "id=42", &posted);
    assert!(matches!(r, ImportOutcome::Unauthorized));
    assert_eq!(import_response(&r), WebResponse::Unauthorized);
}

#[test]
fn import_persists_id_42() {
    let posted = item_with_xml("<a/>");
    let r = route_post_import(true, "id=42", &posted);
    match r {
        ImportOutcome::Persist(itm) => {
            assert_eq!(itm.id(), 42);
            assert_eq!(itm.safe_str("xml", ""), "<a/>");
            assert_eq!(import_response(&ImportOutcome::Persist(itm)), WebResponse::Success);
        },
        _ => panic!("expected a persisted item"),
    }
}

#[test]
fn import_without_id_uses_unset_sentinel() {
    let posted = item_with_xml("<a/>");
    match route_post_import(true, "", &posted) {
        ImportOutcome::Persist(itm) => {
            assert_eq!(itm.id(), u64::MAX);
            assert_eq!(itm.safe_str("xml", ""), "<a/>");
        },
        _ => panic!("expected a persisted item"),
    }
    match route_post_import(true, "other=1", &posted) {
        ImportOutcome::Persist(itm) => assert_eq!(itm.id(), u64::MAX),
        _ => panic!("expected a persisted item"),
    }
}

#[test]
fn import_rejects_malformed_id() {
    let posted = item_with_xml("<a/>");
    for query in ["id=abc", "id=", "id", "id=1x", "id=18446744073709551616"] {
        let r = route_post_import(true, query, &posted);
        assert!(matches!(r, ImportOutcome::BadRequest), "query {:?}", query);
        assert_eq!(import_response(&r), WebResponse::BadRequest);
    }
}

#[test]
fn parse_query_id_values() {
    assert_eq!(parse_query_id("id=42"), Some(42));
    assert_eq!(parse_query_id("id=0"), Some(0));
    assert_eq!(parse_query_id("id=007"), Some(7));
    assert_eq!(parse_query_id("a=1&id=7"), Some(7));
    assert_eq!(parse_query_id("id=1&id=2"), Some(1));
    assert_eq!(parse_query_id("id=18446744073709551615"), Some(u64::MAX));
}

#[test]
fn parse_query_id_defaults_to_unset() {
    assert_eq!(parse_query_id(""), Some(u64::MAX));
    assert_eq!(parse_query_id("a=b"), Some(u64::MAX));
    assert_eq!(parse_query_id("xid=5"), Some(u64::MAX));
    assert_eq!(parse_query_id("a&b&c"), Some(u64::MAX));
}

#[test]
fn parse_query_id_rejects_malformed() {
    assert_eq!(parse_query_id("id=abc"), None);
    assert_eq!(parse_query_id("id="), None);
    assert_eq!(parse_query_id("id"), None);
    assert_eq!(parse_query_id("id=-1"), None);
    assert_eq!(parse_query_id("id=+1"), None);
    assert_eq!(parse_query_id("id=18446744073709551616"), None);
    assert_eq!(parse_query_id("a=1&id=9x&id=2"), None);
}
