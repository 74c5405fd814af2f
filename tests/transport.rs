use databuf::{Decode, Encode};
use frpc::call::{unary_sync_outcome, Call, Event, Outcome, OutputKind, Phase};
use frpc::frame::{encode_frame, frame_header, stream_step, unary_step, write_stream, StreamAction, StreamPoll, UnaryAction, UnaryPoll};
use frpc::message::{Func, FuncOutput, TypeDef};
use frpc::registry::CostomTypes;
use frpc::request::{check_request, parse_content_length, split_request, Status, DEFAULT_MAX_PAYLOAD};
use frpc::schema::Ty;

const CONFIG: u16 = databuf::config::num::LEB128 | databuf::config::len::BEU30;

/// Splits a stream body into its frames: (payload, final flag).
fn frames(mut body: &[u8]) -> Vec<(Vec<u8>, bool)> {
    let mut out = vec![];
    while body.len() >= 4 {
        let h = u32::from_le_bytes([body[0], body[1], body[2], body[3]]);
        let len = (h & 0x7fff_ffff) as usize;
        out.push((body[4..4 + len].to_vec(), h & 0x8000_0000 != 0));
        body = &body[4 + len..];
    }
    assert!(body.is_empty());
    out
}

#[test]
fn frame_headers() {
    assert_eq!(frame_header(5, false), [5, 0, 0, 0]);
    assert_eq!(frame_header(5, true), [5, 0, 0, 0x80]);
    assert_eq!(frame_header(0x0102_0304, false), [4, 3, 2, 1]);
    assert_eq!(encode_frame(&[9, 8], true), vec![2, 0, 0, 0x80, 9, 8]);
}

#[test]
fn stream_steps() {
    assert!(matches!(stream_step(true, StreamPoll::Ready(true), &[1]), StreamAction::Stop));
    assert!(matches!(stream_step(false, StreamPoll::Pending, &[]), StreamAction::Wait));
    assert!(matches!(stream_step(false, StreamPoll::Failed, &[1]), StreamAction::Stop));
    assert!(matches!(stream_step(false, StreamPoll::Ready(false), &[]), StreamAction::Skip));
    assert!(matches!(stream_step(false, StreamPoll::Ready(true), &[]), StreamAction::Finish(f) if f == vec![0, 0, 0, 0x80]));
    assert!(matches!(stream_step(false, StreamPoll::Ready(false), &[7]), StreamAction::Send(f) if f == vec![1, 0, 0, 0, 7]));
}

#[test]
fn yields_then_completes() {
    let chunks = vec![(vec![1u8], false), (vec![], false), (vec![2, 2], false), (vec![3], true), (vec![4], false)];
    let body = write_stream(&chunks);
    assert_eq!(frames(&body), vec![(vec![1], false), (vec![2, 2], false), (vec![3], true)]);
}

/// An event as the handler yields it: its id and the seconds elapsed.
type Event2 = (u8, u64);

fn get_events(count: u8) -> Vec<(Vec<u8>, bool)> {
    if count > 10 {
        let ret: Result<(), String> = Err(format!("count: {count} should be <= 10"));
        return vec![(ret.to_bytes::<CONFIG>(), true)];
    }
    let mut out = vec![];
    for id in 0..count {
        out.push(((id, id as u64).to_bytes::<CONFIG>(), false));
    }
    let ret: Result<(), String> = Ok(());
    out.push((ret.to_bytes::<CONFIG>(), true));
    out
}

#[test]
fn bounded_stream_rejects_large_count() {
    let body = write_stream(&get_events(11));
    let f = frames(&body);
    assert_eq!(f.len(), 1);
    assert!(f[0].1);
    let ret = <Result<(), String>>::from_bytes::<CONFIG>(&f[0].0).unwrap();
    assert_eq!(ret, Err("count: 11 should be <= 10".to_string()));
}

#[test]
fn stream_of_three_events() {
    let body = write_stream(&get_events(3));
    let f = frames(&body);
    assert_eq!(f.len(), 4);
    for (i, (payload, done)) in f[..3].iter().enumerate() {
        assert!(!done);
        assert_eq!(Event2::from_bytes::<CONFIG>(payload).unwrap(), (i as u8, i as u64));
    }
    assert!(f[3].1);
    assert_eq!(<Result<(), String>>::from_bytes::<CONFIG>(&f[3].0).unwrap(), Ok(()));
}

#[test]
fn call_refuses_polls_after_done() {
    let mut call = Call::new(OutputKind::ServerStream);
    assert_eq!(call.current_phase(), Phase::Init);
    assert_eq!(call.poll(Event::Pending), Outcome::Rejected);
    assert_eq!(call.poll(Event::Decoded(true)), Outcome::Invoke);
    assert_eq!(call.poll(Event::Pending), Outcome::Pending);
    assert_eq!(call.poll(Event::Yielded), Outcome::Chunk);
    assert_eq!(call.poll(Event::Complete), Outcome::Last);
    assert_eq!(call.current_phase(), Phase::Done);
    assert_eq!(call.poll(Event::Complete), Outcome::Rejected);
    assert_eq!(call.poll(Event::Yielded), Outcome::Rejected);

    let mut bad = Call::new(OutputKind::Unary);
    assert_eq!(bad.poll(Event::Decoded(false)), Outcome::InvalidInput);
    assert_eq!(bad.poll(Event::Decoded(true)), Outcome::Rejected);

    let mut unary = Call::new(OutputKind::Unary);
    unary.poll(Event::Decoded(true));
    assert_eq!(unary.poll(Event::Yielded), Outcome::Rejected);
    assert_eq!(unary_sync_outcome(false), Outcome::InvalidInput);
}

#[test]
fn wrapping_add_over_the_wire() {
    let def = TypeDef::new(
        "Num",
        CostomTypes::new(),
        vec![Func::new(1, "add", Ty::Tuple(vec![Ty::u8, Ty::u8]), FuncOutput::Unary(Ty::u8), "")],
        "",
    );
    let request = [0x01u8, 0x00, 250, 10];
    let mut reader = check_request(Some("4"), DEFAULT_MAX_PAYLOAD).unwrap();
    reader.push(&request).unwrap();
    let (id, args) = reader.finish().unwrap();
    assert_eq!(id, 1);
    assert_eq!(def.find_func(id), Some(0));
    let decoded = <(u8, u8)>::from_bytes::<CONFIG>(&args);
    assert_eq!(unary_sync_outcome(decoded.is_ok()), Outcome::Last);
    let (a, b) = decoded.unwrap();
    assert_eq!(a.wrapping_add(b).to_bytes::<CONFIG>(), vec![4]);
}

#[test]
fn request_admission() {
    assert_eq!(check_request(None, 10).unwrap_err(), Status::NotImplemented);
    assert_eq!(check_request(Some("ten"), 10).unwrap_err(), Status::BadRequest);
    assert_eq!(check_request(Some("131073"), DEFAULT_MAX_PAYLOAD).unwrap_err(), Status::PayloadTooLarge);
    assert_eq!(Status::PayloadTooLarge.code(), 413);
    let mut r = check_request(Some("+3"), 10).unwrap();
    assert_eq!(r.push(&[1, 2, 3, 4]).unwrap_err(), Status::PartialContent);
    r.push(&[1, 2]).unwrap();
    assert_eq!(r.finish().unwrap_err(), Status::PartialContent);
    let mut short = check_request(Some("5"), 10).unwrap();
    short.push(&[1]).unwrap();
    assert_eq!(short.finish().unwrap_err(), Status::BadRequest);
    let mut one = check_request(Some("1"), 10).unwrap();
    one.push(&[1]).unwrap();
    assert_eq!(one.finish().unwrap_err(), Status::BadRequest);
    assert_eq!(split_request(&[7, 1, 9]).unwrap(), (263, vec![9]));
}

#[test]
fn content_length_parsing() {
    assert_eq!(parse_content_length("0"), Some(0));
    assert_eq!(parse_content_length("+12"), Some(12));
    assert_eq!(parse_content_length("4294967295"), Some(u32::MAX));
    assert_eq!(parse_content_length("4294967296"), None);
    assert_eq!(parse_content_length(""), None);
    assert_eq!(parse_content_length("+"), None);
    assert_eq!(parse_content_length("-1"), None);
    assert_eq!(parse_content_length("1 "), None);
}

#[test]
fn unary_steps() {
    assert!(matches!(unary_step(true, UnaryPoll::Ready, &[1]), UnaryAction::Abandon));
    assert!(matches!(unary_step(false, UnaryPoll::Pending, &[]), UnaryAction::Wait));
    assert!(matches!(unary_step(false, UnaryPoll::Failed, &[1]),
        UnaryAction::Respond { status: Status::NotAcceptable, body: None }));
    assert!(matches!(unary_step(false, UnaryPoll::Ready, &[]),
        UnaryAction::Respond { status: Status::Success, body: None }));
    assert!(matches!(unary_step(false, UnaryPoll::Ready, &[4]),
        UnaryAction::Respond { status: Status::Success, body: Some(b) } if b == vec![4]));
}
