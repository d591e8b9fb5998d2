use lso_core::protocol::{open_retry_delay_ms, check_magic, check_offer, chunk_len, frame, header_len, Answer, FileEntry, Offer, Progress, ProtocolError, CHUNK};
use lso_core::receiver::{resume_offset, RecvAction, RecvError, RecvEvent, Receiver};
use lso_core::sender::{SendAction, SendError, SendEvent, Sender};

fn entry(name: &str, size: u64) -> FileEntry {
    FileEntry { name: name.to_string(), size }
}

/// Runs a sender over in-memory files and a receiver with in-memory part
/// files against each other, as the runtime would.
fn run(contents: &[Vec<u8>], kept: &[Vec<u8>], corrupt: bool) -> (Result<Option<String>, String>, Vec<Vec<u8>>, Vec<String>, Vec<Progress>) {
    let files: Vec<FileEntry> = contents.iter().enumerate().map(|(i, c)| entry(&format!("f{i}"), c.len() as u64)).collect();
    let offsets: Vec<u64> = kept.iter().zip(&files).map(|(k, f)| resume_offset(k.len() as u64, f.size).0).collect();
    let mut parts: Vec<Vec<u8>> = kept.iter().zip(&offsets).map(|(k, o)| k[..*o as usize].to_vec()).collect();
    let answer = Answer { accept: true, offsets: offsets.clone(), reason: None, name: Some("ricevente".into()) };
    let mut sender = Sender::new(files.clone(), answer).map_err(|e| format!("{e:?}")).unwrap();
    let mut receiver = Receiver::new(files.clone(), offsets).unwrap();
    let mut progress = Vec::new();
    let mut wire: Vec<u8> = Vec::new();
    let mut hash_on_wire: Option<Vec<u8>> = None;
    let mut verdict: Option<u8> = None;
    // Receiver side state.
    let mut part_pos = 0usize;
    let mut current = 0usize;
    let mut recv_action = receiver.step(RecvEvent::Ready);
    let mut stored = Vec::new();
    // Sender side state.
    let mut file_pos = 0usize;
    let mut send_file = 0usize;
    let mut send_action = sender.step(SendEvent::Ready);
    let mut receiver_done = false;
    let mut hash_sent = false;
    for _ in 0..100_000 {
        // Drive the receiver as far as the wire allows.
        loop {
            if receiver_done {
                break;
            }
            let ev = match &recv_action {
                RecvAction::OpenPart { index, progress: p } => {
                    current = *index;
                    part_pos = 0;
                    progress.push(p.clone());
                    RecvEvent::Ready
                }
                RecvAction::ReadPart { max } => {
                    let end = (part_pos + max).min(parts[current].len());
                    let d = parts[current][part_pos..end].to_vec();
                    part_pos = end;
                    RecvEvent::Read(d)
                }
                RecvAction::ReadStream { max } => {
                    if wire.is_empty() {
                        break;
                    }
                    let n = (*max).min(wire.len());
                    RecvEvent::Read(wire.drain(..n).collect())
                }
                RecvAction::Write { bytes, progress: p } => {
                    parts[current].extend_from_slice(bytes);
                    progress.push(p.clone());
                    RecvEvent::Ready
                }
                RecvAction::ReadHash => match hash_on_wire.take() {
                    Some(h) => RecvEvent::Hash(h),
                    None => break,
                },
                RecvAction::Store { index } => {
                    verdict = Some(0);
                    RecvEvent::Stored(format!("/dest/f{index}"))
                }
                RecvAction::Verified { progress: p } => {
                    progress.push(p.clone());
                    RecvEvent::Ready
                }
                RecvAction::Discard { .. } => {
                    verdict = Some(1);
                    receiver_done = true;
                    break;
                }
                RecvAction::Done { paths } => {
                    stored = paths.clone();
                    receiver_done = true;
                    break;
                }
                RecvAction::Fail(e) => panic!("receiver failed: {e:?}"),
            };
            recv_action = receiver.step(ev);
        }
        // One sender step.
        let ev = match &send_action {
            SendAction::OpenFile { index, .. } => {
                send_file = *index;
                file_pos = 0;
                SendEvent::Ready
            }
            SendAction::Read { max } => {
                let c = &contents[send_file];
                let end = (file_pos + max).min(c.len());
                let d = c[file_pos..end].to_vec();
                file_pos = end;
                SendEvent::Read(d)
            }
            SendAction::Seek { offset } => {
                file_pos = *offset as usize;
                SendEvent::Ready
            }
            SendAction::Send { bytes, .. } => {
                wire.extend_from_slice(bytes);
                SendEvent::Ready
            }
            SendAction::SendHash { hash } => {
                if !hash_sent {
                    let mut h = hash.clone();
                    if corrupt {
                        h[0] ^= 1;
                    }
                    hash_on_wire = Some(h);
                    hash_sent = true;
                }
                match verdict.take() {
                    Some(v) => {
                        hash_sent = false;
                        SendEvent::Verdict(v)
                    }
                    None => continue,
                }
            }
            SendAction::Verified { .. } => SendEvent::Ready,
            SendAction::Done { receiver } => return (Ok(receiver.clone()), parts, stored, progress),
            SendAction::Fail(e) => return (Err(format!("{e:?}")), parts, stored, progress),
        };
        send_action = sender.step(ev);
    }
    panic!("transfer did not finish")
}

#[test]
fn files_arrive_whole_and_verified() {
    let a: Vec<u8> = (0..700_000u32).map(|i| (i % 251) as u8).collect();
    let b = b"ciao".to_vec();
    let (res, parts, stored, _) = run(&[a.clone(), b.clone()], &[vec![], vec![]], false);
    assert_eq!(res, Ok(Some("ricevente".to_string())));
    assert_eq!(parts, vec![a, b]);
    assert_eq!(stored, vec!["/dest/f0".to_string(), "/dest/f1".to_string()]);
}

#[test]
fn transfers_resume_from_the_kept_part() {
    let a: Vec<u8> = (0..300_000u32).map(|i| (i % 13) as u8).collect();
    let kept = a[..123_456].to_vec();
    let (res, parts, _, progress) = run(&[a.clone()], &[kept], false);
    assert!(res.is_ok());
    assert_eq!(parts[0], a);
    match &progress[0] {
        Progress::FileStart { offset, size, .. } => {
            assert_eq!(*offset, 123_456);
            assert_eq!(*size, 300_000);
        }
        p => panic!("unexpected {p:?}"),
    }
    // Progress is monotonic and ends at the size.
    let mut last = 0;
    for p in &progress {
        if let Progress::Bytes { done, .. } = p {
            assert!(*done > last);
            last = *done;
        }
    }
    assert_eq!(last, 300_000);
}

#[test]
fn a_kept_part_longer_than_the_file_is_dropped() {
    assert_eq!(resume_offset(10, 5), (0, true));
    assert_eq!(resume_offset(5, 5), (5, false));
    assert_eq!(resume_offset(0, 5), (0, false));
}

#[test]
fn a_wrong_hash_is_not_stored() {
    let (res, _, stored, _) = run(&[b"hello".to_vec()], &[vec![]], true);
    assert_eq!(res, Err("HashMismatch { name: \"f0\" }".to_string()));
    assert!(stored.is_empty());
}

#[test]
fn the_sender_refuses_bad_answers() {
    let files = vec![entry("a", 3)];
    let rejected = Sender::new(files.clone(), Answer { accept: false, offsets: vec![], reason: Some("no".into()), name: None });
    assert!(matches!(rejected, Err(SendError::Rejected(r)) if r == "no"));
    let mismatch = Sender::new(files.clone(), Answer { accept: true, offsets: vec![], reason: None, name: None });
    assert!(matches!(mismatch, Err(SendError::OffsetsMismatch)));
    let mut beyond = Sender::new(files, Answer { accept: true, offsets: vec![4], reason: None, name: None }).unwrap();
    assert!(matches!(beyond.step(SendEvent::Ready), SendAction::Fail(SendError::OffsetBeyondSize)));
}

#[test]
fn a_file_that_shrinks_while_sending_fails() {
    let mut s = Sender::new(vec![entry("a", 10)], Answer { accept: true, offsets: vec![0], reason: None, name: None }).unwrap();
    assert!(matches!(s.step(SendEvent::Ready), SendAction::OpenFile { index: 0, .. }));
    assert!(matches!(s.step(SendEvent::Ready), SendAction::Seek { offset: 0 }));
    assert!(matches!(s.step(SendEvent::Ready), SendAction::Read { max: 10 }));
    assert!(matches!(s.step(SendEvent::Read(vec![])), SendAction::Fail(SendError::FileShrank { index: 0 })));
}

#[test]
fn an_interrupted_stream_keeps_the_part() {
    let mut r = Receiver::new(vec![entry("a", 10)], vec![0]).unwrap();
    assert!(matches!(r.step(RecvEvent::Ready), RecvAction::OpenPart { index: 0, .. }));
    assert!(matches!(r.step(RecvEvent::Ready), RecvAction::ReadStream { max: 10 }));
    assert!(matches!(r.step(RecvEvent::Read(vec![1, 2, 3])), RecvAction::Write { .. }));
    assert!(matches!(r.step(RecvEvent::Ready), RecvAction::ReadStream { max: 7 }));
    match r.step(RecvEvent::Read(vec![])) {
        RecvAction::Fail(RecvError::Interrupted { done, size, name }) => {
            assert_eq!((done, size, name.as_str()), (3, 10, "a"));
        }
        _ => panic!("expected an interruption"),
    }
}

#[test]
fn receivers_need_one_sane_offset_per_file() {
    assert!(Receiver::new(vec![entry("a", 3)], vec![]).is_none());
    assert!(Receiver::new(vec![entry("a", 3)], vec![4]).is_none());
    assert!(Receiver::new(vec![entry("a", 3)], vec![3]).is_some());
}

#[test]
fn offers_total_and_check() {
    let offer = Offer { files: vec![entry("a", 3), entry("b", 4)], from: "pc".into() };
    assert_eq!(offer.total_size(), 7);
    assert!(check_offer(&offer).is_ok());
    let bad = Offer { files: vec![entry("..", 1)], from: "pc".into() };
    assert!(matches!(check_offer(&bad), Err(ProtocolError::InvalidName(n)) if n == ".."));
    let many = Offer { files: (0..10_001).map(|i| entry(&format!("f{i}"), 1)).collect(), from: "pc".into() };
    assert!(matches!(check_offer(&many), Err(ProtocolError::TooManyFiles)));
}

#[test]
fn headers_are_framed_big_endian() {
    assert_eq!(frame(b"{}"), vec![0, 0, 0, 2, b'{', b'}']);
    assert_eq!(header_len(&[0, 0, 1, 0]).unwrap(), 256);
    assert_eq!(header_len(&[0, 16, 0, 0]).unwrap(), 1_048_576);
    assert!(matches!(header_len(&[0, 16, 0, 1]), Err(ProtocolError::HeaderTooLarge)));
    assert!(check_magic(b"LSO1", b"LSO1"));
    assert!(!check_magic(b"LSOP", b"LSO1"));
    assert_eq!(chunk_len(5), 5);
    assert_eq!(chunk_len(10_000_000), CHUNK);
}

#[test]
fn opening_a_stream_is_retried_with_growing_pauses() {
    assert_eq!(open_retry_delay_ms(0), Some(0));
    assert_eq!(open_retry_delay_ms(3), Some(1500));
    assert_eq!(open_retry_delay_ms(4), None);
}

#[test]
fn a_mismatched_hash_is_discarded_with_the_file_name() {
    let mut r = Receiver::new(vec![entry("foto.jpg", 3)], vec![0]).unwrap();
    assert!(matches!(r.step(RecvEvent::Ready), RecvAction::OpenPart { index: 0, .. }));
    assert!(matches!(r.step(RecvEvent::Ready), RecvAction::ReadStream { max: 3 }));
    assert!(matches!(r.step(RecvEvent::Read(vec![1, 2, 3])), RecvAction::Write { .. }));
    assert!(matches!(r.step(RecvEvent::Ready), RecvAction::ReadHash));
    match r.step(RecvEvent::Hash(vec![0; 32])) {
        RecvAction::Discard { error: RecvError::HashMismatch { name } } => assert_eq!(name, "foto.jpg"),
        _ => panic!("expected a discard"),
    }
}

#[test]
fn a_failed_verdict_names_the_file() {
    let mut s = Sender::new(vec![entry("doc.pdf", 2)], Answer { accept: true, offsets: vec![0], reason: None, name: None }).unwrap();
    assert!(matches!(s.step(SendEvent::Ready), SendAction::OpenFile { index: 0, .. }));
    assert!(matches!(s.step(SendEvent::Ready), SendAction::Seek { offset: 0 }));
    assert!(matches!(s.step(SendEvent::Ready), SendAction::Read { max: 2 }));
    assert!(matches!(s.step(SendEvent::Read(vec![7, 8])), SendAction::Send { .. }));
    assert!(matches!(s.step(SendEvent::Ready), SendAction::SendHash { .. }));
    match s.step(SendEvent::Verdict(1)) {
        SendAction::Fail(SendError::HashMismatch { name }) => assert_eq!(name, "doc.pdf"),
        _ => panic!("expected a hash mismatch"),
    }
    let rejected = Sender::new(vec![entry("doc.pdf", 2)], Answer { accept: false, offsets: vec![], reason: None, name: None });
    assert!(matches!(rejected, Err(SendError::Rejected(r)) if r.is_empty()));
}
