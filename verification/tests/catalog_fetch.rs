use crosslink::catalog::{CatalogFetcher, CatalogPhase, ResourceCatalog};
use crosslink::error::TransferError;
use crosslink::session::{FetchAction, RetryPolicy, TransferSession, TransportEvent};
use crosslink::wire::ResourceDescriptor;

fn policy() -> RetryPolicy {
    RetryPolicy { max_attempts: 4, base_delay_ms: 10, max_delay_ms: 35 }
}

/// A catalog response with `count` entries named `rom-0`, `rom-1`, ...
fn response(count: u16) -> Vec<u8> {
    let mut bytes = vec![(count >> 8) as u8, count as u8];
    for i in 0..count {
        let d: ResourceDescriptor<32> = ResourceDescriptor::new(100 + i, &format!("rom-{i}")).unwrap();
        bytes.extend(d.encode());
    }
    bytes
}

/// Serves reads from `stream`, at most `chunk` bytes at a time, until the
/// fetcher finishes. Returns the number of bytes taken from the stream.
fn drive<const R: usize, const N: usize>(
    fetcher: &mut CatalogFetcher<R, N>,
    first: FetchAction,
    stream: &[u8],
    chunk: usize,
) -> usize {
    let mut action = first;
    let mut at = 0;
    loop {
        action = match action {
            FetchAction::Send(frame) => {
                assert_eq!(frame, [0, 0, 0, 1]);
                fetcher.step(TransportEvent::Sent)
            }
            FetchAction::Read { len, .. } => {
                assert!(len > 0);
                if at == stream.len() {
                    fetcher.step(TransportEvent::Closed)
                } else {
                    let n = len.min(chunk).min(stream.len() - at);
                    let got = &stream[at..at + n];
                    at += n;
                    fetcher.step(TransportEvent::Received(got))
                }
            }
            FetchAction::Finished => return at,
        };
    }
}

#[test]
fn catalog_of_twenty_into_eight_slots_drains_the_rest() {
    let mut stream = response(20);
    let first_len = stream.len();
    stream.extend(response(3));

    let session = TransferSession::new(policy());
    let (mut fetcher, first) = CatalogFetcher::<8, 32>::start(session);
    let used = drive(&mut fetcher, first, &stream, 5);
    assert_eq!(used, first_len);
    let catalog: ResourceCatalog<8, 32> = fetcher.outcome().unwrap().unwrap();
    assert_eq!(catalog.stored(), 8);
    assert_eq!(catalog.reported(), 20);
    for i in 0..8 {
        let d = catalog.get(i).unwrap();
        assert_eq!(d.id(), 100 + i as u16);
        assert_eq!(d.name(), format!("rom-{i}"));
    }
    assert!(catalog.get(8).is_none());

    // A second request on the same session parses from where the first ended.
    let session = fetcher.into_session();
    let (mut second, first) = CatalogFetcher::<8, 32>::start(session);
    let used2 = drive(&mut second, first, &stream[used..], 1024);
    assert_eq!(used2, stream.len() - first_len);
    let catalog = second.outcome().unwrap().unwrap();
    assert_eq!(catalog.stored(), 3);
    assert_eq!(catalog.reported(), 3);
    assert_eq!(catalog.get(2).unwrap().name(), "rom-2");
    assert!(catalog.get(3).is_none());
}

#[test]
fn empty_catalog_finishes_after_the_count() {
    let (mut fetcher, first) = CatalogFetcher::<4, 8>::start(TransferSession::new(policy()));
    let used = drive(&mut fetcher, first, &[0, 0, 9, 9], 16);
    assert_eq!(used, 2);
    assert_eq!(fetcher.phase(), CatalogPhase::Done);
    assert_eq!(fetcher.outcome().unwrap().unwrap().stored(), 0);
}

#[test]
fn oversize_and_malformed_names_are_skipped_in_place() {
    // entry 0: fits; entry 1: 9 bytes into room for 8; entry 2: bad UTF-8;
    // entry 3: empty name.
    let mut stream = vec![0, 4];
    stream.extend([0, 1, 0, 3, b'a', b'b', b'c']);
    stream.extend([0, 2, 0, 9]);
    stream.extend(*b"123456789");
    stream.extend([0, 3, 0, 2, 0xc3, 0x28]);
    stream.extend([0, 4, 0, 0]);
    let (mut fetcher, first) = CatalogFetcher::<8, 8>::start(TransferSession::new(policy()));
    let used = drive(&mut fetcher, first, &stream, 3);
    assert_eq!(used, stream.len());
    let catalog = fetcher.outcome().unwrap().unwrap();
    assert_eq!(catalog.stored(), 2);
    assert_eq!(catalog.get(0).unwrap().name(), "abc");
    assert!(catalog.get(1).is_none());
    assert!(catalog.get(2).is_none());
    let last = catalog.get(3).unwrap();
    assert_eq!(last.id(), 4);
    assert_eq!(last.name(), "");
}

#[test]
fn silent_peer_times_out_with_growing_delays() {
    let (mut fetcher, first) = CatalogFetcher::<4, 8>::start(TransferSession::new(policy()));
    assert_eq!(first, FetchAction::Send([0, 0, 0, 1]));
    assert_eq!(fetcher.step(TransportEvent::Sent), FetchAction::Read { len: 2, delay_ms: 0 });
    let none: [u8; 0] = [];
    assert_eq!(
        fetcher.step(TransportEvent::Received(&none)),
        FetchAction::Read { len: 2, delay_ms: 10 }
    );
    assert_eq!(
        fetcher.step(TransportEvent::Received(&none)),
        FetchAction::Read { len: 2, delay_ms: 20 }
    );
    assert_eq!(
        fetcher.step(TransportEvent::Received(&none)),
        FetchAction::Read { len: 2, delay_ms: 35 }
    );
    assert_eq!(fetcher.step(TransportEvent::Received(&none)), FetchAction::Finished);
    assert_eq!(fetcher.outcome(), Some(Err(TransferError::Timeout)));
}

#[test]
fn data_resets_the_retry_budget() {
    let (mut fetcher, _) = CatalogFetcher::<4, 8>::start(TransferSession::new(policy()));
    fetcher.step(TransportEvent::Sent);
    let none: [u8; 0] = [];
    for _ in 0..3 {
        fetcher.step(TransportEvent::Received(&none));
    }
    assert_eq!(
        fetcher.step(TransportEvent::Received(&[0])),
        FetchAction::Read { len: 1, delay_ms: 0 }
    );
    assert_eq!(
        fetcher.step(TransportEvent::Received(&none)),
        FetchAction::Read { len: 1, delay_ms: 10 }
    );
    assert_eq!(
        fetcher.step(TransportEvent::Received(&[1])),
        FetchAction::Read { len: 4, delay_ms: 0 }
    );
    assert_eq!(fetcher.phase(), CatalogPhase::Header);
}

#[test]
fn transport_faults_map_to_their_errors() {
    let (mut f, _) = CatalogFetcher::<4, 8>::start(TransferSession::new(policy()));
    assert_eq!(f.step(TransportEvent::Failed), FetchAction::Finished);
    assert_eq!(f.outcome(), Some(Err(TransferError::Io)));

    let (mut f, _) = CatalogFetcher::<4, 8>::start(TransferSession::new(policy()));
    f.step(TransportEvent::Sent);
    f.step(TransportEvent::Received(&[0, 2]));
    assert_eq!(f.step(TransportEvent::Closed), FetchAction::Finished);
    assert_eq!(f.outcome(), Some(Err(TransferError::Truncated)));

    let (mut f, _) = CatalogFetcher::<4, 8>::start(TransferSession::new(policy()));
    f.step(TransportEvent::Sent);
    assert_eq!(f.step(TransportEvent::Received(&[0, 2, 7])), FetchAction::Finished);
    assert_eq!(f.outcome(), Some(Err(TransferError::Protocol)));
    // A finished exchange ignores whatever comes next.
    assert_eq!(f.step(TransportEvent::Received(&[0, 0])), FetchAction::Finished);
    assert_eq!(f.outcome(), Some(Err(TransferError::Protocol)));
}

#[test]
fn every_chunking_gives_the_same_catalog() {
    let stream = response(11);
    let (mut whole, first) = CatalogFetcher::<16, 32>::start(TransferSession::new(policy()));
    drive(&mut whole, first, &stream, usize::MAX);
    let expected = whole.outcome().unwrap().unwrap();
    assert_eq!(expected.stored(), 11);
    for chunk in 1..=12 {
        let (mut f, first) = CatalogFetcher::<16, 32>::start(TransferSession::new(policy()));
        let used = drive(&mut f, first, &stream, chunk);
        assert_eq!(used, stream.len());
        assert_eq!(f.outcome(), Some(Ok(expected)));
    }
}

#[test]
fn reads_never_ask_for_more_than_the_field_in_progress() {
    let stream = response(2);
    let (mut f, _) = CatalogFetcher::<4, 32>::start(TransferSession::new(policy()));
    assert_eq!(f.step(TransportEvent::Sent), FetchAction::Read { len: 2, delay_ms: 0 });
    assert_eq!(
        f.step(TransportEvent::Received(&stream[0..2])),
        FetchAction::Read { len: 4, delay_ms: 0 }
    );
    assert_eq!(
        f.step(TransportEvent::Received(&stream[2..3])),
        FetchAction::Read { len: 3, delay_ms: 0 }
    );
    assert_eq!(
        f.step(TransportEvent::Received(&stream[3..6])),
        FetchAction::Read { len: 5, delay_ms: 0 }
    );
    assert_eq!(f.phase(), CatalogPhase::Name);
    assert_eq!(
        f.step(TransportEvent::Received(&stream[6..11])),
        FetchAction::Read { len: 4, delay_ms: 0 }
    );
    assert_eq!(f.phase(), CatalogPhase::Header);
}

#[test]
fn a_catalog_with_no_slots_still_drains_the_stream() {
    let stream = response(3);
    let (mut f, first) = CatalogFetcher::<0, 32>::start(TransferSession::new(policy()));
    let used = drive(&mut f, first, &stream, 7);
    assert_eq!(used, stream.len());
    let catalog = f.outcome().unwrap().unwrap();
    assert_eq!(catalog.capacity(), 0);
    assert_eq!(catalog.stored(), 0);
    assert_eq!(catalog.reported(), 3);
    assert!(catalog.get(0).is_none());
}
