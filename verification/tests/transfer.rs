use dali::protocol::TransferMessage;
use dali::transfer::{
    accept_all, offered_name, Decision, Payload, ReceiveState, SendState, TransferError,
    TransferOutcome, CHUNK_SIZE,
};

/// What one side did, as its caller saw it.
struct Run<S> {
    end: S,
    bytes: Vec<u8>,
    progress: Vec<(u64, u64)>,
}

/// The next read size of a source that hands over `pattern` in turn.
fn grant(pattern: &[usize], turn: usize) -> usize {
    pattern[turn % pattern.len()].max(1)
}

/// Runs an accepted sender over `file`, whose reads come out as `pattern` says.
fn send(mut state: SendState, file: &[u8], pattern: &[usize]) -> Run<SendState> {
    let mut at = 0;
    let mut bytes = Vec::new();
    let mut progress = Vec::new();
    let mut turn = 0;
    while state.outcome().is_none() {
        let want = state.chunk_len();
        assert!(want >= 1 && want <= CHUNK_SIZE);
        let n = want.min(file.len() - at).min(grant(pattern, turn));
        bytes.extend_from_slice(&file[at..at + n]);
        at += n;
        state = state.on_chunk(n);
        progress.push(state.progress().unwrap());
        turn += 1;
    }
    Run { end: state, bytes, progress }
}

/// Runs an accepting receiver over `incoming`, a connection that closes at its end.
fn receive(mut state: ReceiveState, incoming: &[u8], pattern: &[usize]) -> Run<ReceiveState> {
    let mut at = 0;
    let mut bytes = Vec::new();
    let mut progress = Vec::new();
    let mut turn = 0;
    while state.outcome().is_none() {
        let want = state.chunk_len();
        assert!(want >= 1 && want <= CHUNK_SIZE);
        let n = want.min(incoming.len() - at).min(grant(pattern, turn));
        bytes.extend_from_slice(&incoming[at..at + n]);
        at += n;
        state = state.on_chunk(n);
        progress.push(state.progress().unwrap());
        turn += 1;
    }
    Run { end: state, bytes, progress }
}

fn file_of(len: usize) -> Vec<u8> {
    (0..len).map(|i| (i * 31 % 251) as u8).collect()
}

/// One whole transfer over an in-memory connection: the sender's end, the
/// receiver's end, the name and the bytes that the receiver stored.
fn transfer(
    filename: &str,
    file: &[u8],
    policy: fn(&str, u64) -> Decision,
    reads: &[usize],
    arrivals: &[usize],
) -> (Run<SendState>, Run<ReceiveState>, String) {
    let (sender, offer_line) = SendState::offer(filename.to_string(), file.len() as u64);
    let (receiver, offer) = ReceiveState::new().on_offer(&offer_line);
    let (name, size) = offer.expect("the offer is read");
    let (receiver, reply_line) = receiver.decide(policy(&name, size));
    let sender = sender.on_reply(&reply_line);
    let sent = if sender.outcome().is_none() {
        send(sender, file, reads)
    } else {
        Run { end: sender, bytes: Vec::new(), progress: Vec::new() }
    };
    let received = if receiver.outcome().is_none() {
        receive(receiver, &sent.bytes, arrivals)
    } else {
        Run { end: receiver, bytes: Vec::new(), progress: Vec::new() }
    };
    (sent, received, name)
}

fn reject_all(_filename: &str, _size: u64) -> Decision {
    Decision::Reject
}

#[test]
fn chunk_is_64_kib() {
    assert_eq!(CHUNK_SIZE, 64 * 1024);
}

#[test]
fn the_policy_takes_every_file() {
    assert_eq!(accept_all("x", 0), Decision::Accept);
    assert_eq!(accept_all("../../etc/passwd", u64::MAX), Decision::Accept);
}

#[test]
fn a_file_without_a_name_is_offered_as_unknown() {
    assert_eq!(offered_name(Some("report.pdf")), "report.pdf");
    assert_eq!(offered_name(Some("")), "");
    assert_eq!(offered_name(None), "unknown");
}

#[test]
fn an_offer_opens_the_transfer() {
    let (state, line) = SendState::offer("x".to_string(), 100);
    assert_eq!(state, SendState::AwaitingReply { size: 100 });
    assert_eq!(line, b"{\"FileOffer\":{\"filename\":\"x\",\"size\":100}}\n".to_vec());
    assert_eq!(state.outcome(), None);
    assert_eq!(state.chunk_len(), 0);
    assert_eq!(state.progress(), None);
}

#[test]
fn an_acceptance_starts_the_payload() {
    let state = SendState::AwaitingReply { size: 100 }.on_reply(b"\"Accept\"\n");
    assert_eq!(state, SendState::Streaming { payload: Payload::Moving { done: 0, total: 100 } });
    assert_eq!(state.chunk_len(), 100);
    assert_eq!(state.outcome(), None);
    assert_eq!(state.progress(), Some((0, 100)));
}

#[test]
fn an_accepted_empty_file_is_sent_at_once() {
    let state = SendState::AwaitingReply { size: 0 }.on_reply(b"\"Accept\"\n");
    assert_eq!(state, SendState::Streaming { payload: Payload::Complete { total: 0 } });
    assert_eq!(state.chunk_len(), 0);
    assert_eq!(state.outcome(), Some(Ok(TransferOutcome::Completed)));
}

#[test]
fn a_refusal_ends_the_sender_without_error_and_without_payload() {
    let state = SendState::AwaitingReply { size: 100 }.on_reply(b"\"Reject\"\n");
    assert_eq!(state, SendState::Declined);
    assert_eq!(state.outcome(), Some(Ok(TransferOutcome::Declined)));
    assert_eq!(state.chunk_len(), 0);
    assert_eq!(state.progress(), None);
    assert_eq!(state.on_chunk(0), SendState::Declined);
}

#[test]
fn a_refused_transfer_moves_no_byte() {
    let file = file_of(1000);
    let (sent, received, name) = transfer("x", &file, reject_all, &[100], &[100]);
    assert_eq!(name, "x");
    assert_eq!(sent.end.outcome(), Some(Ok(TransferOutcome::Declined)));
    assert!(sent.bytes.is_empty());
    assert!(sent.progress.is_empty());
    assert_eq!(received.end, ReceiveState::Declined);
    assert_eq!(received.end.outcome(), Some(Ok(TransferOutcome::Declined)));
    assert!(received.bytes.is_empty());
}

#[test]
fn any_other_reply_is_a_protocol_violation() {
    let replies: [&[u8]; 8] = [
        b"",
        b"\n",
        b"garbage\n",
        b"\"Complete\"\n",
        b"\"Query\"\n",
        b"{\"FileOffer\":{\"filename\":\"x\",\"size\":1}}\n",
        b"\"Accept\"\"Accept\"\n",
        b"\xff\n",
    ];
    for reply in replies {
        let state = SendState::AwaitingReply { size: 5 }.on_reply(reply);
        assert_eq!(state, SendState::Violated);
        assert_eq!(state.outcome(), Some(Err(TransferError::ProtocolViolation)));
        assert_eq!(state.chunk_len(), 0);
    }
}

#[test]
fn a_reply_is_taken_once() {
    let streaming = SendState::Streaming { payload: Payload::Moving { done: 3, total: 9 } };
    assert_eq!(streaming.on_reply(b"\"Reject\"\n"), streaming);
    assert_eq!(SendState::Declined.on_reply(b"\"Accept\"\n"), SendState::Declined);
    assert_eq!(SendState::Violated.on_reply(b"\"Accept\"\n"), SendState::Violated);
}

#[test]
fn chunks_are_what_is_left_up_to_64_kib() {
    assert_eq!(Payload::begin(1).chunk_len(), 1);
    assert_eq!(Payload::begin(65535).chunk_len(), 65535);
    assert_eq!(Payload::begin(65536).chunk_len(), 65536);
    assert_eq!(Payload::begin(65537).chunk_len(), 65536);
    assert_eq!(Payload::begin(u64::MAX).chunk_len(), 65536);
    assert_eq!(Payload::Moving { done: 200000, total: 250000 }.chunk_len(), 50000);
    assert_eq!(Payload::Moving { done: u64::MAX - 1, total: u64::MAX }.chunk_len(), 1);
    assert_eq!(Payload::Moving { done: 7, total: 7 }.chunk_len(), 0);
    assert_eq!(Payload::Moving { done: 8, total: 7 }.chunk_len(), 0);
    assert_eq!(Payload::Complete { total: 7 }.chunk_len(), 0);
    assert_eq!(Payload::Cut { done: 1, total: 7 }.chunk_len(), 0);
}

#[test]
fn a_payload_counts_its_chunks() {
    let start = Payload::begin(100000);
    assert_eq!(start, Payload::Moving { done: 0, total: 100000 });
    assert_eq!(start.progress(), (0, 100000));
    let next = start.on_chunk(65536);
    assert_eq!(next, Payload::Moving { done: 65536, total: 100000 });
    assert_eq!(next.chunk_len(), 34464);
    let short = next.on_chunk(10);
    assert_eq!(short, Payload::Moving { done: 65546, total: 100000 });
    let end = short.on_chunk(34454);
    assert_eq!(end, Payload::Complete { total: 100000 });
    assert_eq!(end.progress(), (100000, 100000));
    assert_eq!(end.on_chunk(0), end);
}

#[test]
fn an_empty_payload_is_complete() {
    assert_eq!(Payload::begin(0), Payload::Complete { total: 0 });
    assert_eq!(Payload::begin(0).progress(), (0, 0));
}

#[test]
fn a_source_that_ends_cuts_the_payload() {
    let cut = Payload::Moving { done: 40, total: 100 }.on_chunk(0);
    assert_eq!(cut, Payload::Cut { done: 40, total: 100 });
    assert_eq!(cut.progress(), (40, 100));
    assert_eq!(cut.on_chunk(0), cut);
}

#[test]
fn a_file_that_ends_early_fails_the_sender() {
    let state = SendState::AwaitingReply { size: 10 }.on_reply(b"\"Accept\"\n");
    let state = state.on_chunk(4).on_chunk(0);
    assert_eq!(
        state.outcome(),
        Some(Err(TransferError::PrematureTermination { transferred: 4, expected: 10 }))
    );
}

#[test]
fn the_first_line_must_be_an_offer() {
    let lines: [&[u8]; 7] = [
        b"",
        b"\n",
        b"\"Accept\"\n",
        b"\"Reject\"\n",
        b"\"Complete\"\n",
        b"GET / HTTP/1.1\r\n",
        b"{\"FileOffer\":{\"filename\":\"x\",\"size\":-1}}\n",
    ];
    for line in lines {
        let (state, offer) = ReceiveState::new().on_offer(line);
        assert_eq!(state, ReceiveState::Violated);
        assert_eq!(offer, None);
        assert_eq!(state.outcome(), Some(Err(TransferError::ProtocolViolation)));
        assert_eq!(state.chunk_len(), 0);
        assert_eq!(state.decide(Decision::Accept), (ReceiveState::Violated, Vec::new()));
    }
}

#[test]
fn an_offer_waits_for_the_decision() {
    let line = TransferMessage::FileOffer { filename: "x".to_string(), size: 100 }.to_bytes();
    let (state, offer) = ReceiveState::new().on_offer(&line);
    assert_eq!(state, ReceiveState::Deciding { size: 100 });
    assert_eq!(offer, Some(("x".to_string(), 100)));
    assert_eq!(state.outcome(), None);
    assert_eq!(state.chunk_len(), 0);
    assert_eq!(state.progress(), None);
    assert_eq!(state.on_offer(&line), (state, None));
}

#[test]
fn the_decision_is_sent_back() {
    let deciding = ReceiveState::Deciding { size: 100 };
    assert_eq!(
        deciding.decide(Decision::Accept),
        (
            ReceiveState::Receiving { payload: Payload::Moving { done: 0, total: 100 } },
            b"\"Accept\"\n".to_vec()
        )
    );
    assert_eq!(
        deciding.decide(Decision::Reject),
        (ReceiveState::Declined, b"\"Reject\"\n".to_vec())
    );
    assert_eq!(
        ReceiveState::Deciding { size: 0 }.decide(Decision::Accept),
        (ReceiveState::Receiving { payload: Payload::Complete { total: 0 } }, b"\"Accept\"\n".to_vec())
    );
    assert_eq!(ReceiveState::new().decide(Decision::Accept), (ReceiveState::AwaitingOffer, Vec::new()));
}

#[test]
fn the_receiver_never_reads_past_the_file() {
    let state = ReceiveState::Receiving { payload: Payload::Moving { done: 90, total: 100 } };
    assert_eq!(state.chunk_len(), 10);
    let state = state.on_chunk(10);
    assert_eq!(state.outcome(), Some(Ok(TransferOutcome::Completed)));
    assert_eq!(state.chunk_len(), 0);
    assert_eq!(state.progress(), Some((100, 100)));
}

#[test]
fn files_of_any_size_arrive_as_sent() {
    let patterns: [&[usize]; 5] = [&[1], &[7, 1, 65536], &[65536], &[1000, 3, 70000], &[4096]];
    for len in [0usize, 1, 2, 100, 65535, 65536, 65537, 131072, 200001] {
        let file = file_of(len);
        let reads = patterns[len % patterns.len()];
        let arrivals = patterns[(len + 2) % patterns.len()];
        if reads == [1] && len > 70000 || arrivals == [1] && len > 70000 {
            continue;
        }
        let (sent, received, name) = transfer("data.bin", &file, accept_all, reads, arrivals);
        assert_eq!(name, "data.bin");
        assert_eq!(sent.bytes, file);
        assert_eq!(received.bytes, file);
        assert_eq!(sent.end.outcome(), Some(Ok(TransferOutcome::Completed)));
        assert_eq!(received.end.outcome(), Some(Ok(TransferOutcome::Completed)));
    }
}

#[test]
fn a_file_arrives_byte_by_byte() {
    let file = file_of(3000);
    let (sent, received, _) = transfer("slow", &file, accept_all, &[1], &[1]);
    assert_eq!(sent.bytes, file);
    assert_eq!(received.bytes, file);
    assert_eq!(received.progress.len(), 3000);
}

#[test]
fn report_of_250000_bytes_is_received_whole() {
    let file = file_of(250000);
    let (sent, received, name) = transfer("report.pdf", &file, accept_all, &[65536], &[1460, 65536, 9000]);
    assert_eq!(name, "report.pdf");
    assert_eq!(received.bytes.len(), 250000);
    assert_eq!(received.bytes, file);
    assert_eq!(received.end.outcome(), Some(Ok(TransferOutcome::Completed)));
    assert_eq!(sent.end.outcome(), Some(Ok(TransferOutcome::Completed)));
    assert_eq!(sent.progress, vec![(65536, 250000), (131072, 250000), (196608, 250000), (250000, 250000)]);
    assert_eq!(sent.progress.last(), Some(&(250000, 250000)));
    assert_eq!(received.progress.last(), Some(&(250000, 250000)));
}

#[test]
fn a_connection_closed_after_40_of_100_bytes_is_an_error() {
    let line = TransferMessage::FileOffer { filename: "x".to_string(), size: 100 }.to_bytes();
    let (state, offer) = ReceiveState::new().on_offer(&line);
    assert_eq!(offer, Some(("x".to_string(), 100)));
    let (state, reply) = state.decide(accept_all("x", 100));
    assert_eq!(reply, b"\"Accept\"\n".to_vec());
    let incoming = file_of(40);
    let received = receive(state, &incoming, &[16]);
    assert_eq!(
        received.end.outcome(),
        Some(Err(TransferError::PrematureTermination { transferred: 40, expected: 100 }))
    );
    assert_ne!(received.end.outcome(), Some(Ok(TransferOutcome::Completed)));
    assert_eq!(received.end, ReceiveState::Receiving { payload: Payload::Cut { done: 40, total: 100 } });
    assert_eq!(received.bytes, incoming);
    assert_eq!(received.progress.last(), Some(&(40, 100)));
}

#[test]
fn a_connection_closed_before_any_payload_is_an_error() {
    let state = ReceiveState::Deciding { size: 1 }.decide(Decision::Accept).0;
    assert_eq!(
        state.on_chunk(0).outcome(),
        Some(Err(TransferError::PrematureTermination { transferred: 0, expected: 1 }))
    );
}

#[test]
fn two_connections_served_in_turn_both_complete() {
    let file_a = file_of(100000);
    let file_b: Vec<u8> = file_of(70000).into_iter().rev().collect();
    let start = |size: usize| {
        ReceiveState::Deciding { size: size as u64 }.decide(Decision::Accept).0
    };
    let (mut a, mut b) = (start(file_a.len()), start(file_b.len()));
    let (mut at_a, mut at_b) = (0usize, 0usize);
    let (mut stored_a, mut stored_b) = (Vec::new(), Vec::new());
    let mut turn = 0usize;
    while a.outcome().is_none() || b.outcome().is_none() {
        if turn % 3 != 0 && a.outcome().is_none() {
            let n = a.chunk_len().min(file_a.len() - at_a).min(1 + turn * 37 % 5000);
            stored_a.extend_from_slice(&file_a[at_a..at_a + n]);
            at_a += n;
            a = a.on_chunk(n);
        } else if b.outcome().is_none() {
            let n = b.chunk_len().min(file_b.len() - at_b).min(1 + turn * 91 % 3000);
            stored_b.extend_from_slice(&file_b[at_b..at_b + n]);
            at_b += n;
            b = b.on_chunk(n);
        }
        turn += 1;
    }
    assert_eq!(a.outcome(), Some(Ok(TransferOutcome::Completed)));
    assert_eq!(b.outcome(), Some(Ok(TransferOutcome::Completed)));
    assert_eq!(stored_a, file_a);
    assert_eq!(stored_b, file_b);
}

#[test]
fn a_failed_connection_leaves_the_other_alone() {
    let file = file_of(50000);
    let mut good = ReceiveState::Deciding { size: 50000 }.decide(Decision::Accept).0;
    let mut bad = ReceiveState::Deciding { size: 100 }.decide(Decision::Accept).0;
    let mut stored = Vec::new();
    let mut at = 0usize;
    good = good.on_chunk(20000);
    stored.extend_from_slice(&file[at..at + 20000]);
    at += 20000;
    bad = bad.on_chunk(40);
    bad = bad.on_chunk(0);
    assert_eq!(
        bad.outcome(),
        Some(Err(TransferError::PrematureTermination { transferred: 40, expected: 100 }))
    );
    let (violated, _) = ReceiveState::new().on_offer(b"noise\n");
    assert_eq!(violated.outcome(), Some(Err(TransferError::ProtocolViolation)));
    assert_eq!(good.outcome(), None);
    while good.outcome().is_none() {
        let n = good.chunk_len().min(file.len() - at);
        stored.extend_from_slice(&file[at..at + n]);
        at += n;
        good = good.on_chunk(n);
    }
    assert_eq!(good.outcome(), Some(Ok(TransferOutcome::Completed)));
    assert_eq!(stored, file);
}
