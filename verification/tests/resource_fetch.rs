use crosslink::error::{CodecError, TransferError};
use crosslink::resource::{ResourceFetcher, ResourcePayload, ResourcePhase};
use crosslink::session::{FetchAction, RetryPolicy, TransferSession, TransportEvent};

fn policy() -> RetryPolicy {
    RetryPolicy { max_attempts: 3, base_delay_ms: 5, max_delay_ms: 1000 }
}

/// Serves reads from `stream`, at most `chunk` bytes at a time, and closes
/// the stream when it runs dry. Returns the number of bytes taken.
fn drive<const B: usize>(
    fetcher: &mut ResourceFetcher<B>,
    first: FetchAction,
    stream: &[u8],
    chunk: usize,
) -> usize {
    let mut action = first;
    let mut at = 0;
    loop {
        action = match action {
            FetchAction::Send(_) => fetcher.step(TransportEvent::Sent),
            FetchAction::Read { len, .. } => {
                assert!(len > 0);
                if at == stream.len() {
                    fetcher.step(TransportEvent::Closed)
                } else {
                    let n = len.min(chunk).min(stream.len() - at);
                    let got = &stream[at..at + n];
                    at += n;
                    fetcher.step(TransportEvent::Received(got))
                }
            }
            FetchAction::Finished => return at,
        };
    }
}

#[test]
fn request_carries_the_id_big_endian() {
    let (_, first) =
        ResourceFetcher::<16>::start(TransferSession::new(policy()), 0x1234, ResourcePayload::new());
    assert_eq!(first, FetchAction::Send([0x12, 0x34, 0x00, 0x02]));
}

#[test]
fn payload_arrives_in_pieces() {
    let stream = [0, 5, 10, 20, 30, 40, 50, 99, 99];
    let (mut f, first) =
        ResourceFetcher::<16>::start(TransferSession::new(policy()), 1, ResourcePayload::new());
    let used = drive(&mut f, first, &stream, 2);
    assert_eq!(used, 7);
    assert_eq!(f.phase(), ResourcePhase::Done);
    assert_eq!(f.outcome(), Some(Ok(5)));
    let (_, out) = f.finish();
    assert_eq!(out.size(), 5);
    assert_eq!(out.bytes(), &[10, 20, 30, 40, 50]);
    assert_eq!(out.capacity(), 16);
}

#[test]
fn payload_of_exactly_the_capacity_fits() {
    let mut stream = vec![0x10, 0x00];
    stream.extend((0..4096).map(|i| (i % 251) as u8));
    let (mut f, first) =
        ResourceFetcher::<4096>::start(TransferSession::new(policy()), 1, ResourcePayload::new());
    let used = drive(&mut f, first, &stream, 1536);
    assert_eq!(used, 4098);
    assert_eq!(f.outcome(), Some(Ok(4096)));
    assert_eq!(f.payload().bytes(), &stream[2..]);
}

#[test]
fn zero_size_is_an_empty_payload() {
    let (mut f, first) =
        ResourceFetcher::<16>::start(TransferSession::new(policy()), 1, ResourcePayload::new());
    let used = drive(&mut f, first, &[0, 0, 7], 8);
    assert_eq!(used, 2);
    assert_eq!(f.outcome(), Some(Ok(0)));
    assert_eq!(f.payload().size(), 0);
}

#[test]
fn oversize_response_is_refused_and_leaves_the_payload() {
    // First fill the payload with a good fetch.
    let (mut f, first) =
        ResourceFetcher::<8>::start(TransferSession::new(policy()), 1, ResourcePayload::new());
    drive(&mut f, first, &[0, 3, 1, 2, 3], 8);
    let (session, out) = f.finish();
    assert_eq!(out.size(), 3);
    let before = out;

    // Then declare nine bytes for a buffer of eight.
    let (mut f, first) = ResourceFetcher::<8>::start(session, 2, out);
    let used = drive(&mut f, first, &[0, 9, 1, 2, 3, 4, 5, 6, 7, 8, 9], 8);
    assert_eq!(used, 2);
    assert_eq!(f.outcome(), Some(Err(TransferError::BufferOverflow)));
    let (_, after) = f.finish();
    assert_eq!(after.size(), 3);
    assert_eq!(after, before);
}

#[test]
fn stream_closing_early_is_truncated_and_claims_nothing() {
    let (mut f, first) =
        ResourceFetcher::<8>::start(TransferSession::new(policy()), 1, ResourcePayload::new());
    drive(&mut f, first, &[0, 2, 7, 7], 8);
    let (session, out) = f.finish();
    assert_eq!(out.size(), 2);

    let (mut f, first) = ResourceFetcher::<8>::start(session, 1, out);
    let used = drive(&mut f, first, &[0, 6, 1, 2, 3, 4], 8);
    assert_eq!(used, 6);
    assert_eq!(f.outcome(), Some(Err(TransferError::Truncated)));
    assert_eq!(f.payload().size(), 0);
    assert_eq!(f.payload().bytes(), &[] as &[u8]);
}

#[test]
fn stream_closing_before_the_size_is_truncated() {
    let (mut f, first) =
        ResourceFetcher::<8>::start(TransferSession::new(policy()), 1, ResourcePayload::new());
    drive(&mut f, first, &[0], 8);
    assert_eq!(f.outcome(), Some(Err(TransferError::Truncated)));
}

#[test]
fn silent_server_times_out() {
    let (mut f, _) =
        ResourceFetcher::<8>::start(TransferSession::new(policy()), 1, ResourcePayload::new());
    assert_eq!(f.step(TransportEvent::Sent), FetchAction::Read { len: 2, delay_ms: 0 });
    assert_eq!(f.outcome(), None);
    assert_eq!(f.step(TransportEvent::Received(&[])), FetchAction::Read { len: 2, delay_ms: 5 });
    assert_eq!(f.step(TransportEvent::Received(&[])), FetchAction::Read { len: 2, delay_ms: 10 });
    assert_eq!(f.step(TransportEvent::Received(&[])), FetchAction::Finished);
    assert_eq!(f.outcome(), Some(Err(TransferError::Timeout)));
}

#[test]
fn io_failure_and_overlong_read_are_reported() {
    let (mut f, _) =
        ResourceFetcher::<8>::start(TransferSession::new(policy()), 1, ResourcePayload::new());
    f.step(TransportEvent::Sent);
    f.step(TransportEvent::Received(&[0, 4]));
    assert_eq!(f.step(TransportEvent::Failed), FetchAction::Finished);
    assert_eq!(f.outcome(), Some(Err(TransferError::Io)));

    let (mut f, _) =
        ResourceFetcher::<8>::start(TransferSession::new(policy()), 1, ResourcePayload::new());
    f.step(TransportEvent::Sent);
    f.step(TransportEvent::Received(&[0, 2]));
    assert_eq!(f.step(TransportEvent::Received(&[1, 2, 3])), FetchAction::Finished);
    assert_eq!(f.outcome(), Some(Err(TransferError::Protocol)));

    let (mut f, _) =
        ResourceFetcher::<8>::start(TransferSession::new(policy()), 1, ResourcePayload::new());
    assert_eq!(f.step(TransportEvent::Received(&[0, 2])), FetchAction::Finished);
    assert_eq!(f.outcome(), Some(Err(TransferError::Protocol)));
}

#[test]
fn payload_wire_form_round_trips() {
    let mut p: ResourcePayload<8> = ResourcePayload::new();
    assert_eq!(p.decode(&[0, 3, 9, 8, 7, 6]), Ok(3));
    assert_eq!(p.size(), 3);
    assert_eq!(p.bytes(), &[9, 8, 7]);
    assert_eq!(p.encode(), Some(vec![0, 3, 9, 8, 7]));

    let mut q: ResourcePayload<8> = ResourcePayload::new();
    assert_eq!(q.decode(&p.encode().unwrap()), Ok(3));
    assert_eq!(q, p);
    assert_eq!(ResourcePayload::<8>::new().encode(), Some(vec![0, 0]));
}

#[test]
fn payload_decode_errors_leave_the_payload() {
    let mut p: ResourcePayload<4> = ResourcePayload::new();
    p.decode(&[0, 2, 5, 6]).unwrap();
    let before = p;
    assert_eq!(p.decode(&[0, 5, 1, 2, 3, 4, 5]), Err(CodecError::FrameTooLarge));
    assert_eq!(p.decode(&[0, 3, 1, 2]), Err(CodecError::Incomplete));
    assert_eq!(p.decode(&[0]), Err(CodecError::Incomplete));
    assert_eq!(p.decode(&[]), Err(CodecError::Incomplete));
    assert_eq!(p, before);
    assert_eq!(p.decode(&[0, 0]), Ok(0));
    assert_eq!(p.size(), 0);
}

#[test]
fn every_chunking_gives_the_same_payload() {
    let mut stream = vec![0, 200];
    stream.extend((0..200u32).map(|i| (i * 3 % 256) as u8));
    for chunk in 1..=17 {
        let (mut f, first) =
            ResourceFetcher::<256>::start(TransferSession::new(policy()), 9, ResourcePayload::new());
        let used = drive(&mut f, first, &stream, chunk);
        assert_eq!(used, stream.len());
        assert_eq!(f.outcome(), Some(Ok(200)));
        assert_eq!(f.payload().bytes(), &stream[2..]);
    }
}

#[test]
fn a_new_fetch_overwrites_the_payload() {
    let (mut f, first) =
        ResourceFetcher::<8>::start(TransferSession::new(policy()), 1, ResourcePayload::new());
    drive(&mut f, first, &[0, 4, 1, 2, 3, 4], 8);
    let (session, out) = f.finish();
    let (mut f, first) = ResourceFetcher::<8>::start(session, 2, out);
    drive(&mut f, first, &[0, 2, 9, 8], 8);
    let (_, out) = f.finish();
    assert_eq!(out.size(), 2);
    assert_eq!(out.bytes(), &[9, 8]);
}
