use iris::ipc::codec::{
    encode, payload_len, read_frame, write_frame, CodecError, Source, MAX_FRAME_LEN,
};
use iris::ipc::message::PROTOCOL_VERSION;
use iris::ipc::plugin::{HostMessage, PluginEvent, PluginMessage, StreamKind, TOKEN_ENV};
use iris::ipc::transport::{Channel, Platform};
use iris::model::StatsTick;
use iris::plugin::{registered, task_for, token_of, Refusal, Registration, Task};

/// A message as it travels: its number among the variants, and its fields.
fn hello() -> (u32, u32) {
    (0, PROTOCOL_VERSION)
}

fn framed(payloads: &[Vec<u8>]) -> Source {
    let mut buf = Vec::new();
    for p in payloads {
        write_frame(&mut buf, p).unwrap();
    }
    Source::new(buf)
}

#[test]
fn frame_roundtrips_through_a_cursor() {
    let msg = hello();
    let mut cur = framed(&[bincode::serialize(&msg).unwrap()]);
    let got = read_frame(&mut cur).unwrap().unwrap();
    assert_eq!(bincode::deserialize::<(u32, u32)>(&got).unwrap(), msg);
    // second read hits clean EOF
    assert!(read_frame(&mut cur).unwrap().is_none());
}

#[test]
fn two_frames_read_back_in_order() {
    let a: u32 = 1;
    let b: (u32, u64) = (13, 7);
    let mut cur = framed(&[bincode::serialize(&a).unwrap(), bincode::serialize(&b).unwrap()]);
    let ra = read_frame(&mut cur).unwrap().unwrap();
    let rb = read_frame(&mut cur).unwrap().unwrap();
    assert_eq!(bincode::deserialize::<u32>(&ra).unwrap(), a);
    assert_eq!(bincode::deserialize::<(u32, u64)>(&rb).unwrap(), b);
}

#[test]
fn oversize_length_prefix_is_rejected() {
    let mut bytes = (MAX_FRAME_LEN + 1).to_le_bytes().to_vec();
    bytes.extend_from_slice(&[0u8; 8]);
    let r = read_frame(&mut Source::new(bytes));
    assert!(matches!(r, Err(CodecError::FrameTooLarge(_))));
}

#[test]
fn the_longest_frame_is_accepted() {
    let payload = vec![7u8; MAX_FRAME_LEN as usize];
    let mut cur = framed(&[payload.clone()]);
    assert_eq!(read_frame(&mut cur).unwrap().unwrap(), payload);
    assert_eq!(
        encode(&vec![7u8; MAX_FRAME_LEN as usize + 1]),
        Err(CodecError::FrameTooLarge(MAX_FRAME_LEN + 1))
    );
    assert_eq!(payload_len(&MAX_FRAME_LEN.to_le_bytes()), Ok(MAX_FRAME_LEN as usize));
}

#[test]
fn a_frame_that_breaks_off_is_an_error() {
    let whole = encode(&[1, 2, 3]).unwrap();
    assert_eq!(whole, vec![3, 0, 0, 0, 1, 2, 3]);
    let r = read_frame(&mut Source::new(whole[..5].to_vec()));
    assert!(matches!(r, Err(CodecError::Io(_))));
    // so is one that breaks off inside its length; only no byte at all is the end
    for n in 1..7 {
        let r = read_frame(&mut Source::new(whole[..n].to_vec()));
        assert!(
            matches!(r, Err(CodecError::Io(ref m)) if m == "failed to fill whole buffer"),
            "{n}"
        );
    }
    assert!(matches!(read_frame(&mut Source::new(vec![5, 0])), Err(CodecError::Io(_))));
    assert!(matches!(read_frame(&mut Source::new(Vec::new())), Ok(None)));
}

#[test]
fn codec_errors_tell_what_happened() {
    assert!(CodecError::FrameTooLarge(9_000_000).message().contains("9000000"));
    assert!(CodecError::Io("gone".to_string()).message().contains("gone"));
}

#[test]
fn channels_have_their_own_names_and_modes() {
    let all = [Channel::Telemetry, Channel::Admin, Channel::Plugins];
    for a in all {
        for b in all {
            assert_eq!(a.name(Platform::Unix) == b.name(Platform::Unix), a == b);
            assert_eq!(a.name(Platform::Windows) == b.name(Platform::Windows), a == b);
        }
    }
    assert_eq!(Channel::Telemetry.name(Platform::Unix), "/run/iris/engine.sock");
}

#[test]
fn plugins_register_with_their_token() {
    let mut r = Registration::default();
    r.caps = vec!["observe:ticks".to_string()];
    let m: PluginMessage<u8> = r.register("rep", "secret".to_string());
    match m {
        PluginMessage::Register { id, protocol, token, caps } => {
            assert_eq!((id.as_str(), protocol, token.as_str()), ("rep", 2, "secret"));
            assert_eq!(caps, vec!["observe:ticks".to_string()]);
        }
        m => panic!("{m:?}"),
    }
    assert!(r.subscribe::<u8>().is_none());
    r.streams = vec![StreamKind::Ticks];
    assert_eq!(
        r.subscribe::<u8>(),
        Some(PluginMessage::Subscribe { streams: vec![StreamKind::Ticks] })
    );
    assert_eq!(token_of(Some("t".to_string())), Ok("t".to_string()));
    assert!(token_of(None).unwrap_err().contains(TOKEN_ENV));
}

#[test]
fn the_host_answers_a_registration() {
    let granted = HostMessage::Registered {
        granted: vec!["observe:ticks".to_string()],
        engine_version: "1".to_string(),
    };
    assert_eq!(registered(Some(granted)).unwrap(), vec!["observe:ticks".to_string()]);
    let refused = HostMessage::Rejected { reason: "bad token".to_string() };
    assert!(matches!(registered(Some(refused)), Err(Refusal::Rejected(r)) if r.contains("bad token")));
    assert!(matches!(registered(None), Err(Refusal::NotRegistered(None))));
}

#[test]
fn host_messages_become_tasks() {
    let pong: Task<u8> = task_for(HostMessage::Ping { req: 4 });
    assert!(matches!(pong, Task::Send(PluginMessage::Pong { req: 4 })));
    let panel: Task<u8> = task_for(HostMessage::PanelRequest { req: 5 });
    assert!(matches!(panel, Task::Panel { req: 5 }));
    let tick = StatsTick {
        at_ms: 1,
        total_rate_sent: 2,
        total_rate_recv: 3,
        apps: vec![],
        adapters: vec![],
    };
    let event: Task<u8> = task_for(HostMessage::Event(PluginEvent::Tick(tick)));
    assert!(matches!(event, Task::Tick(t) if t.total_rate_recv == 3));
    let late: Task<u8> = task_for(HostMessage::Rejected { reason: String::new() });
    assert!(matches!(late, Task::Nothing));
}
