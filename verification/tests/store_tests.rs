use dad_jokes::store::{recent_jokes, wire_fields, StoredJoke, RECENT_LIMIT};

fn joke(id: i32, created_at: i64) -> StoredJoke {
    StoredJoke {
        id,
        joke_text: format!("joke {}", id),
        created_at,
    }
}

fn ids(rows: &[StoredJoke]) -> Vec<i32> {
    rows.iter().map(|r| r.id).collect()
}

#[test]
fn empty_store_gives_an_empty_listing() {
    let out = recent_jokes(Vec::new());
    assert!(out.is_empty());
}

#[test]
fn listing_is_ordered_newest_first() {
    let rows = vec![joke(1, 5), joke(2, 9), joke(3, 1)];
    let out = recent_jokes(rows);
    assert_eq!(ids(&out), vec![2, 1, 3]);
}

#[test]
fn listing_never_exceeds_the_limit_and_keeps_the_newest() {
    let mut rows = Vec::new();
    for k in 0..12 {
        rows.push(joke(k, k as i64));
    }
    let out = recent_jokes(rows);
    assert_eq!(out.len(), RECENT_LIMIT);
    assert_eq!(out[0].created_at, 11);
    assert_eq!(out[RECENT_LIMIT - 1].created_at, 2);
    for w in out.windows(2) {
        assert!(w[0].created_at >= w[1].created_at);
    }
}

#[test]
fn equal_creation_times_are_all_kept() {
    let rows = vec![joke(1, 7), joke(2, 7), joke(3, 7)];
    let out = recent_jokes(rows);
    assert_eq!(out.len(), 3);
    let mut seen = ids(&out);
    seen.sort();
    assert_eq!(seen, vec![1, 2, 3]);
    for r in &out {
        assert_eq!(r.created_at, 7);
    }
}

#[test]
fn wire_form_formats_the_epoch() {
    let (id, text, date) = wire_fields(&joke(3, 0));
    assert_eq!(id, 3);
    assert_eq!(text, "joke 3");
    assert_eq!(date, "1970-01-01T00:00:00Z");
}

#[test]
fn wire_form_formats_a_recent_moment() {
    let (_, _, date) = wire_fields(&joke(1, 1700000000));
    assert_eq!(date, "2023-11-14T22:13:20Z");
}

#[test]
fn wire_form_of_an_unrepresentable_moment_is_empty() {
    let (_, _, date) = wire_fields(&joke(1, i64::MAX));
    assert_eq!(date, "");
}

#[test]
fn listing_entries_come_from_the_rows() {
    let rows = vec![joke(4, 100), joke(9, 50)];
    let out = recent_jokes(rows);
    assert_eq!(out.len(), 2);
    assert_eq!(out[0].id, 4);
    assert_eq!(out[0].joke_text, "joke 4");
    assert_eq!(out[1].id, 9);
    assert_eq!(out[1].joke_text, "joke 9");
}
