use poap_badge::backend::domain::{Event, EventMetadata};
use poap_badge::backend::error::AppError;
use poap_badge::backend::gallery::{gallery_start, gallery_step, GalleryAction};

fn reader_get_event(id_hex: &str) -> Result<EventMetadata, AppError> {
    if id_hex == "ff".repeat(32) {
        return Err(AppError::NotFound);
    }
    Ok(EventMetadata {
        name: "Meridian 2025".into(),
        description: "demo".into(),
        image_ipfs: "ipfs://Qm".into(),
    })
}

fn run(listed: Result<Vec<String>, AppError>) -> (Result<Vec<Event>, AppError>, Vec<String>) {
    let mut fetched_ids = Vec::new();
    let (mut g, mut action) = gallery_start(listed);
    loop {
        match action {
            GalleryAction::Fetch(id) => {
                assert!(g.is_pending());
                let fetched = reader_get_event(&id);
                fetched_ids.push(id);
                let (next, a) = gallery_step(g, fetched);
                g = next;
                action = a;
            }
            GalleryAction::Done(events) => return (Ok(events), fetched_ids),
            GalleryAction::Fail(e) => return (Err(e), fetched_ids),
        }
    }
}

#[test]
fn gallery_composes_events() {
    let (events, _) = run(Ok(vec!["aa".repeat(32)]));
    let events = events.unwrap();
    assert_eq!(events.len(), 1);
    assert_eq!(events[0].metadata.image_ipfs, "ipfs://Qm");
}

#[test]
fn gallery_fetches_each_listed_id_in_order() {
    let ids = vec!["aa".repeat(32), "bb".repeat(32), "cc".repeat(32)];
    let (events, fetched) = run(Ok(ids.clone()));
    assert_eq!(fetched, ids);
    let events = events.unwrap();
    assert_eq!(events.iter().map(|e| e.id.clone()).collect::<Vec<_>>(), ids);
}

#[test]
fn gallery_of_nothing_is_empty() {
    let (events, fetched) = run(Ok(vec![]));
    assert_eq!(events, Ok(vec![]));
    assert!(fetched.is_empty());
}

#[test]
fn gallery_stops_at_the_first_failed_read() {
    let ids = vec!["aa".repeat(32), "ff".repeat(32), "bb".repeat(32)];
    let (events, fetched) = run(Ok(ids));
    assert_eq!(events, Err(AppError::NotFound));
    assert_eq!(fetched, vec!["aa".repeat(32), "ff".repeat(32)]);
    let (events, fetched) = run(Err(AppError::Rpc("down".into())));
    assert_eq!(events, Err(AppError::Rpc("down".into())));
    assert!(fetched.is_empty());
}
