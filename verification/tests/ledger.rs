use this_me::model::{Entry, GetFilter, Verb};
use this_me::query::{apply_filter, sort_entries_desc};
use this_me::store::{MemStore, MeStore};
use this_me::errors::MeError;

fn entry(verb: Verb, ctx: &str, key: &str, value: &str, ts: &str) -> Entry {
    Entry {
        verb,
        context_id: ctx.to_string(),
        key: key.to_string(),
        value: value.to_string(),
        timestamp: ts.to_string(),
    }
}

fn filter(verb: &str) -> GetFilter {
    GetFilter::for_verb(verb)
}

#[test]
fn ledger_append_only_single_entry() {
    let mut store = MemStore::new();
    store.insert("be", "ctx", "k", "v", "2024-01-01T00:00:00Z").unwrap();
    let mut f = filter("be");
    f.context_id = Some("ctx".to_string());
    let out = store.get(&f).unwrap();
    let hits: Vec<&Entry> = out.iter().filter(|e| e.key == "k" && e.value == "v").collect();
    assert_eq!(hits.len(), 1);
    assert_eq!(out.len(), 1);

    store.insert("be", "ctx", "k2", "v2", "2024-01-02T00:00:00Z").unwrap();
    let out2 = store.get(&f).unwrap();
    assert_eq!(out2.len(), 2);
    let hits2: Vec<&Entry> = out2.iter().filter(|e| e.key == "k" && e.value == "v").collect();
    assert_eq!(hits2.len(), 1);
    assert_eq!(hits2[0].timestamp, "2024-01-01T00:00:00Z");
}

#[test]
fn insert_rejects_unknown_verb() {
    let mut store = MemStore::new();
    assert_eq!(
        store.insert("sing", "ctx", "k", "v", "2024-01-01T00:00:00Z"),
        Err(MeError::Validation)
    );
}

#[test]
fn get_rejects_unknown_verb() {
    let store = MemStore::new();
    assert!(matches!(store.get(&filter("sing")), Err(MeError::Validation)));
}

#[test]
fn filter_by_context() {
    let mut store = MemStore::new();
    store.insert("be", "ctx1", "color", "red", "2024-01-01T00:00:01Z").unwrap();
    store.insert("be", "ctx2", "color", "blue", "2024-01-01T00:00:02Z").unwrap();
    let mut f = filter("be");
    f.context_id = Some("ctx1".to_string());
    let out = store.get(&f).unwrap();
    assert_eq!(out.len(), 1);
    assert_eq!(out[0].value, "red");
}

#[test]
fn filter_key_substring() {
    let mut store = MemStore::new();
    store.insert("be", "ctx1", "color", "red", "2024-01-01T00:00:01Z").unwrap();
    store.insert("be", "ctx2", "color", "blue", "2024-01-01T00:00:02Z").unwrap();
    store.insert("be", "ctx3", "shape", "round", "2024-01-01T00:00:03Z").unwrap();
    let mut f = filter("be");
    f.key = Some("like:col".to_string());
    let out = store.get(&f).unwrap();
    assert_eq!(out.len(), 2);
    assert_eq!(out[0].value, "blue");
    assert_eq!(out[1].value, "red");
}

#[test]
fn filter_value_substring() {
    let mut store = MemStore::new();
    store.insert("be", "c", "k", "dark red", "2024-01-01T00:00:01Z").unwrap();
    store.insert("be", "c", "k", "blue", "2024-01-01T00:00:02Z").unwrap();
    let mut f = filter("be");
    f.value = Some("like:red".to_string());
    let out = store.get(&f).unwrap();
    assert_eq!(out.len(), 1);
    assert_eq!(out[0].value, "dark red");
}

#[test]
fn filter_value_json_field() {
    let mut store = MemStore::new();
    store.insert("be", "c", "paint", "{\"shade\":\"red\"}", "2024-01-01T00:00:01Z").unwrap();
    store.insert("be", "c", "paint", "{\"shade\":\"blue\"}", "2024-01-01T00:00:02Z").unwrap();
    store.insert("be", "c", "paint", "red", "2024-01-01T00:00:03Z").unwrap();
    store.insert("be", "c", "paint", "not json {", "2024-01-01T00:00:04Z").unwrap();
    let mut f = filter("be");
    f.value = Some("json:shade=red".to_string());
    let out = store.get(&f).unwrap();
    assert_eq!(out.len(), 1);
    assert_eq!(out[0].value, "{\"shade\":\"red\"}");
}

#[test]
fn filter_time_range() {
    let mut store = MemStore::new();
    for i in 1..=5 {
        let ts = format!("2024-01-0{}T00:00:00Z", i);
        store.insert("do", "c", "step", &format!("{}", i), &ts).unwrap();
    }
    let mut f = filter("do");
    f.since = Some("2024-01-02T00:00:00Z".to_string());
    f.until = Some("2024-01-04T00:00:00Z".to_string());
    let out = store.get(&f).unwrap();
    assert_eq!(out.len(), 3);
    assert_eq!(out[0].value, "4");
    assert_eq!(out[2].value, "2");
}

#[test]
fn results_sorted_newest_first() {
    let mut store = MemStore::new();
    store.insert("at", "c", "place", "harbour", "2024-03-01T00:00:00Z").unwrap();
    store.insert("at", "c", "place", "station", "2024-01-01T00:00:00Z").unwrap();
    store.insert("at", "c", "place", "market", "2024-02-01T00:00:00Z").unwrap();
    let out = store.get(&filter("at")).unwrap();
    let values: Vec<&str> = out.iter().map(|e| e.value.as_str()).collect();
    assert_eq!(values, ["harbour", "market", "station"]);
}

#[test]
fn equal_timestamps_keep_insertion_order() {
    let mut store = MemStore::new();
    store.insert("be", "c", "k", "first", "2024-01-01T00:00:00Z").unwrap();
    store.insert("be", "c", "k", "second", "2024-01-01T00:00:00Z").unwrap();
    let out = store.get(&filter("be")).unwrap();
    assert_eq!(out[0].value, "first");
    assert_eq!(out[1].value, "second");
}

#[test]
fn pagination_returns_disjoint_pages() {
    let mut store = MemStore::new();
    for i in 0..150 {
        let ts = format!("2024-01-01T{:02}:{:02}:00Z", i / 60, i % 60);
        store.insert("be", "c", "n", &format!("{}", i), &ts).unwrap();
    }
    let mut newest = filter("be");
    newest.limit = Some(50);
    newest.offset = Some(0);
    let first_page = store.get(&newest).unwrap();
    assert_eq!(first_page.len(), 50);
    assert_eq!(first_page[0].value, "149");
    assert_eq!(first_page[49].value, "100");

    let mut oldest = filter("be");
    oldest.limit = Some(50);
    oldest.offset = Some(100);
    let last_page = store.get(&oldest).unwrap();
    assert_eq!(last_page.len(), 50);
    assert_eq!(last_page[0].value, "49");
    assert_eq!(last_page[49].value, "0");

    for a in &first_page {
        for b in &last_page {
            assert_ne!(a.value, b.value);
        }
    }
}

#[test]
fn default_limit_is_one_hundred() {
    let mut store = MemStore::new();
    for i in 0..120 {
        let ts = format!("2024-01-01T{:02}:{:02}:00Z", i / 60, i % 60);
        store.insert("have", "c", "n", &format!("{}", i), &ts).unwrap();
    }
    let out = store.get(&filter("have")).unwrap();
    assert_eq!(out.len(), 100);
    assert_eq!(out[0].value, "119");
    assert_eq!(out[99].value, "20");
}

#[test]
fn all_mode_fans_out_per_verb() {
    let mut store = MemStore::new();
    store.insert("be", "c", "k", "a", "2024-01-01T00:00:02Z").unwrap();
    store.insert("have", "c", "k", "b", "2024-01-01T00:00:03Z").unwrap();
    store.insert("react", "c", "k", "c", "2024-01-01T00:00:01Z").unwrap();
    let out = store.get(&filter("all")).unwrap();
    assert_eq!(out.len(), 3);
    let values: Vec<&str> = out.iter().map(|e| e.value.as_str()).collect();
    assert_eq!(values, ["b", "a", "c"]);
}

#[test]
fn all_mode_applies_limit_per_verb() {
    let mut store = MemStore::new();
    for i in 0..5 {
        let ts = format!("2024-01-01T00:00:0{}Z", i);
        store.insert("be", "c", "k", &format!("be{}", i), &ts).unwrap();
        store.insert("do", "c", "k", &format!("do{}", i), &ts).unwrap();
    }
    let mut f = filter("all");
    f.limit = Some(3);
    let out = store.get(&f).unwrap();
    assert_eq!(out.len(), 6);
}

#[test]
fn do_accepts_table_spelling() {
    let mut store = MemStore::new();
    store.insert("do_", "c", "k", "v", "2024-01-01T00:00:00Z").unwrap();
    let out = store.get(&filter("do")).unwrap();
    assert_eq!(out.len(), 1);
    assert_eq!(out[0].verb, Verb::Do);
}

#[test]
fn apply_filter_runs_standalone() {
    let entries = vec![
        entry(Verb::Be, "c", "k", "x", "2024-01-01T00:00:01Z"),
        entry(Verb::Do, "c", "k", "y", "2024-01-01T00:00:02Z"),
    ];
    let out = apply_filter(&entries, &filter("be")).unwrap();
    assert_eq!(out.len(), 1);
    assert_eq!(out[0].value, "x");
}

#[test]
fn sort_entries_desc_orders_by_timestamp() {
    let entries = vec![
        entry(Verb::Be, "c", "k", "old", "2024-01-01T00:00:00Z"),
        entry(Verb::Be, "c", "k", "new", "2025-01-01T00:00:00Z"),
        entry(Verb::Be, "c", "k", "mid", "2024-06-01T00:00:00Z"),
    ];
    let out = sort_entries_desc(&entries);
    let values: Vec<&str> = out.iter().map(|e| e.value.as_str()).collect();
    assert_eq!(values, ["new", "mid", "old"]);
}

#[test]
fn verb_names_round_trip() {
    for verb in [
        Verb::Be,
        Verb::Have,
        Verb::Do,
        Verb::At,
        Verb::Relate,
        Verb::React,
        Verb::Communicate,
    ] {
        assert_eq!(Verb::parse(verb.name()), Some(verb));
    }
    assert_eq!(Verb::parse("do_"), Some(Verb::Do));
    assert_eq!(Verb::parse("all"), None);
    assert_eq!(Verb::parse(""), None);
}

#[test]
fn identity_rows_in_store() {
    let mut store = MemStore::new();
    assert_eq!(store.load_keys("alice123"), Err(MeError::NotFound));
    store.create_identity("alice123", "pk", "epk", "2024-01-01T00:00:00Z").unwrap();
    assert_eq!(
        store.create_identity("alice123", "pk2", "epk2", "2024-01-02T00:00:00Z"),
        Err(MeError::AlreadyExists)
    );
    let (pk, epk) = store.load_keys("alice123").unwrap();
    assert_eq!(pk, "pk");
    assert_eq!(epk, "epk");
    store.update_encrypted_private("alice123", "epk3").unwrap();
    let (pk2, epk2) = store.load_keys("alice123").unwrap();
    assert_eq!(pk2, "pk");
    assert_eq!(epk2, "epk3");
    assert_eq!(store.update_encrypted_private("nobody99", "x"), Err(MeError::NotFound));
}
