use miniredis::cli::ReplicaInfo;
use miniredis::command::{parse_command, RedisCommand};
use miniredis::coordinator::{Action, Coordinator, Message};
use miniredis::handler::{handle_command, HandlerStep};
use miniredis::replica::{
    handshake_capa, handshake_listening_port, handshake_ping, handshake_psync, replica_step,
    ReplicaAction,
};
use miniredis::resp_parser::parse_resp;
use miniredis::store::Store;

/// Runs one framed request through classification and the handler.
fn dispatch(conn: u64, wire: &[u8], replica_role: bool) -> Vec<HandlerStep> {
    let (used, value) = parse_resp(wire).expect("frame must parse");
    assert_eq!(used, wire.len());
    let cmd = parse_command(&value).expect("command must classify");
    handle_command(conn, cmd, wire, replica_role, b"", b"")
}

fn reply_of(steps: &[HandlerStep], i: usize) -> Vec<u8> {
    match &steps[i] {
        HandlerStep::Reply(bytes) => bytes.clone(),
        other => panic!("expected a reply, found {:?}", other),
    }
}

#[test]
fn ping_gets_pong() {
    let steps = dispatch(1, b"*1\r\n$4\r\nPING\r\n", false);
    assert_eq!(steps.len(), 1);
    assert_eq!(reply_of(&steps, 0), b"+PONG\r\n".to_vec());
}

#[test]
fn echo_returns_argument() {
    let steps = dispatch(1, b"*2\r\n$4\r\nECHO\r\n$5\r\nhello\r\n", false);
    assert_eq!(steps.len(), 1);
    assert_eq!(reply_of(&steps, 0), b"+hello\r\n".to_vec());
}

#[test]
fn set_then_get_round_trip() {
    let mut coord = Coordinator::new();
    let wire = b"*3\r\n$3\r\nSET\r\n$3\r\nfoo\r\n$3\r\nbar\r\n";
    let steps = dispatch(7, wire, false);
    assert_eq!(steps.len(), 3);
    // The store write goes first, then the client's +OK, then the fan-out.
    match &steps[0] {
        HandlerStep::Send(m @ Message::SetKey(..)) => {
            let actions = coord.handle_message(clone_message(m), 0);
            assert!(actions.is_empty());
        },
        other => panic!("expected the store write first, found {:?}", other),
    }
    assert_eq!(reply_of(&steps, 1), b"+OK\r\n".to_vec());
    match &steps[2] {
        HandlerStep::Send(Message::Data(frame)) => assert_eq!(frame, &wire.to_vec()),
        other => panic!("expected the fan-out frame last, found {:?}", other),
    }

    let actions = coord.handle_message(Message::Get(7, b"foo".to_vec()), 1);
    assert_eq!(actions, vec![Action::Reply(7, b"$3\r\nbar\r\n".to_vec())]);

    let actions = coord.handle_message(Message::Get(7, b"nope".to_vec()), 1);
    assert_eq!(actions, vec![Action::Reply(7, b"$-1\r\n".to_vec())]);
}

fn clone_message(m: &Message) -> Message {
    match m {
        Message::SetKey(k, v, px) => Message::SetKey(k.clone(), v.clone(), *px),
        other => panic!("only store writes are cloned here, found {:?}", other),
    }
}

#[test]
fn ttl_expires_on_read() {
    let mut store = Store::new();
    store.set(b"x".to_vec(), b"1".to_vec(), 0, Some(100));
    assert_eq!(store.get(b"x", 50), Some(b"1".to_vec()));
    assert_eq!(store.get(b"x", 99), Some(b"1".to_vec()));
    assert_eq!(store.get(b"x", 100), None);
    assert_eq!(store.get(b"x", 200), None);
}

#[test]
fn ttl_through_coordinator() {
    let mut coord = Coordinator::new();
    coord.handle_message(Message::SetKey(b"x".to_vec(), b"1".to_vec(), Some(100)), 0);
    let actions = coord.handle_message(Message::Get(3, b"x".to_vec()), 50);
    assert_eq!(actions, vec![Action::Reply(3, b"$1\r\n1\r\n".to_vec())]);
    let actions = coord.handle_message(Message::Get(3, b"x".to_vec()), 200);
    assert_eq!(actions, vec![Action::Reply(3, b"$-1\r\n".to_vec())]);
}

#[test]
fn set_without_ttl_survives() {
    let mut store = Store::new();
    store.set(b"k".to_vec(), b"v".to_vec(), 0, None);
    assert_eq!(store.get(b"k", u64::MAX), Some(b"v".to_vec()));
    store.set(b"k".to_vec(), b"w".to_vec(), 5, None);
    assert_eq!(store.get(b"k", 6), Some(b"w".to_vec()));
    assert_eq!(store.get(b"other", 0), None);
}

#[test]
fn info_names_the_role() {
    fn contains(haystack: &[u8], needle: &[u8]) -> bool {
        haystack.windows(needle.len()).any(|w| w == needle)
    }
    let steps = dispatch(1, b"*2\r\n$4\r\nINFO\r\n$11\r\nreplication\r\n", false);
    let reply = reply_of(&steps, 0);
    assert!(contains(&reply, b"role:master"));
    assert!(contains(&reply, b"master_repl_offset:0"));
    let steps = dispatch(1, b"*2\r\n$4\r\nINFO\r\n$11\r\nreplication\r\n", true);
    assert!(contains(&reply_of(&steps, 0), b"role:slave"));
}

#[test]
fn config_get_reports_both_parameters() {
    let (_, value) = parse_resp(b"*3\r\n$6\r\nCONFIG\r\n$3\r\nGET\r\n$3\r\ndir\r\n").unwrap();
    let cmd = parse_command(&value).unwrap();
    let steps = handle_command(1, cmd, b"", false, b"/tmp/data", b"dump.rdb");
    assert_eq!(reply_of(&steps, 0), b"*2\r\n$3\r\ndir\r\n$9\r\n/tmp/data\r\n".to_vec());

    let (_, value) =
        parse_resp(b"*3\r\n$6\r\nCONFIG\r\n$3\r\nGET\r\n$10\r\ndbfilename\r\n").unwrap();
    let cmd = parse_command(&value).unwrap();
    let steps = handle_command(1, cmd, b"", false, b"/tmp/data", b"dump.rdb");
    assert_eq!(reply_of(&steps, 0), b"*2\r\n$10\r\ndbfilename\r\n$8\r\ndump.rdb\r\n".to_vec());
}

#[test]
fn handshake_frames_are_exact() {
    assert_eq!(handshake_ping(), b"*1\r\n$4\r\nPING\r\n".to_vec());
    assert_eq!(
        handshake_listening_port(6380),
        b"*3\r\n$8\r\nREPLCONF\r\n$14\r\nlistening-port\r\n$4\r\n6380\r\n".to_vec()
    );
    assert_eq!(
        handshake_capa(),
        b"*3\r\n$8\r\nREPLCONF\r\n$4\r\ncapa\r\n$6\r\npsync2\r\n".to_vec()
    );
    assert_eq!(handshake_psync(), b"*3\r\n$5\r\nPSYNC\r\n$1\r\n?\r\n$2\r\n-1\r\n".to_vec());
}

#[test]
fn psync_gets_fullresync_and_snapshot() {
    let steps = dispatch(9, b"*3\r\n$5\r\nPSYNC\r\n$1\r\n?\r\n$2\r\n-1\r\n", false);
    assert_eq!(steps.len(), 4);
    let line = reply_of(&steps, 0);
    assert!(line.starts_with(b"+FULLRESYNC "));
    assert!(line.ends_with(b" 0\r\n"));
    // "+FULLRESYNC " + forty hex digits + " 0\r\n"
    assert_eq!(line.len(), 12 + 40 + 4);
    let transfer = reply_of(&steps, 1);
    assert!(transfer.starts_with(b"$88\r\n"));
    assert_eq!(transfer.len(), 5 + 88);
    assert!(!transfer.ends_with(b"\r\n"));
    assert_eq!(steps[2], HandlerStep::BecomeReplica);
    assert_eq!(steps[3], HandlerStep::Send(Message::NewConnection(9)));
}

#[test]
fn writes_fan_out_to_attached_replicas() {
    let mut coord = Coordinator::new();
    coord.handle_message(Message::NewConnection(21), 0);
    let wire = b"*3\r\n$3\r\nSET\r\n$1\r\na\r\n$1\r\nb\r\n";
    let actions = coord.handle_message(Message::Data(wire.to_vec()), 0);
    assert_eq!(actions, vec![Action::SendToReplicas(wire.to_vec())]);
}

#[test]
fn replica_replay_applies_the_same_writes_in_order() {
    // The primary's stream: two writes, then a GETACK.
    let mut stream: Vec<u8> = Vec::new();
    stream.extend_from_slice(b"*3\r\n$3\r\nSET\r\n$1\r\na\r\n$1\r\nb\r\n");
    stream.extend_from_slice(b"*5\r\n$3\r\nSET\r\n$1\r\nk\r\n$1\r\nv\r\n$2\r\nPX\r\n$3\r\n500\r\n");
    stream.extend_from_slice(b"*3\r\n$8\r\nREPLCONF\r\n$6\r\nGETACK\r\n$1\r\n*\r\n");

    let mut primary = Store::new();
    primary.set(b"a".to_vec(), b"b".to_vec(), 0, None);
    primary.set(b"k".to_vec(), b"v".to_vec(), 0, Some(500));

    let mut replica = Store::new();
    let mut offset: u64 = 0;
    let mut cursor: usize = 0;
    let mut acks: Vec<Vec<u8>> = Vec::new();
    while cursor < stream.len() {
        let (used, value) = parse_resp(&stream[cursor..]).expect("stream frames");
        let cmd = parse_command(&value).expect("stream commands");
        let (action, next_offset) = replica_step(&cmd, used as u64, offset);
        match action {
            ReplicaAction::ApplySet(k, v, px) => replica.set(k, v, 0, px),
            ReplicaAction::SendAck(bytes) => acks.push(bytes),
            ReplicaAction::Ignore => {},
        }
        offset = next_offset;
        cursor += used;
    }
    for key in [b"a".as_slice(), b"k".as_slice(), b"zz".as_slice()] {
        assert_eq!(replica.get(key, 10), primary.get(key, 10));
    }
    // The GETACK was answered with the byte count of the two writes alone.
    let writes_len = stream.len() - b"*3\r\n$8\r\nREPLCONF\r\n$6\r\nGETACK\r\n$1\r\n*\r\n".len();
    let expected = format!("*3\r\n$8\r\nREPLCONF\r\n$3\r\nACK\r\n$2\r\n{}\r\n", writes_len);
    assert_eq!(acks, vec![expected.into_bytes()]);
    assert_eq!(offset as usize, stream.len());
}

#[test]
fn wait_zero_replies_immediately() {
    let mut coord = Coordinator::new();
    let actions = coord.handle_message(Message::WaitHandshake(4, 0, 100), 0);
    assert_eq!(actions, vec![Action::Reply(4, b":0\r\n".to_vec())]);
    // The same holds with replicas attached and writes propagated.
    coord.handle_message(Message::NewConnection(1), 0);
    coord.handle_message(Message::NewConnection(2), 0);
    coord.handle_message(Message::Data(b"*1\r\n$4\r\nPING\r\n".to_vec()), 0);
    let actions = coord.handle_message(Message::WaitHandshake(4, 0, 100), 0);
    assert_eq!(actions.len(), 2);
    assert!(matches!(&actions[0], Action::SendToReplicas(_)));
    assert_eq!(actions[1], Action::Reply(4, b":0\r\n".to_vec()));
}

#[test]
fn wait_counts_replicas_at_the_target() {
    let mut coord = Coordinator::new();
    coord.handle_message(Message::NewConnection(1), 0);
    coord.handle_message(Message::NewConnection(2), 0);
    let wire = b"*3\r\n$3\r\nSET\r\n$1\r\na\r\n$1\r\nb\r\n";
    coord.handle_message(Message::SetKey(b"a".to_vec(), b"b".to_vec(), None), 0);
    coord.handle_message(Message::Data(wire.to_vec()), 0);

    let actions = coord.handle_message(Message::WaitHandshake(4, 2, 500), 0);
    assert_eq!(actions.len(), 2);
    let getack = b"*3\r\n$8\r\nREPLCONF\r\n$6\r\nGETACK\r\n$1\r\n*\r\n";
    assert_eq!(actions[0], Action::SendToReplicas(getack.to_vec()));
    // The ack target is everything propagated before this WAIT's GETACK.
    let target = match actions[1] {
        Action::StartWaitTimer(client, timeout, target) => {
            assert_eq!(client, 4);
            assert_eq!(timeout, 500);
            assert_eq!(target as usize, wire.len());
            target
        },
        ref other => panic!("expected a timer, found {:?}", other),
    };

    // The timer fires with no acknowledgment recorded: nobody is synced.
    assert_eq!(coord.wait_timer_fired(4, target), Action::Reply(4, b":0\r\n".to_vec()));
    // One replica acks the target.
    coord.handle_message(Message::UpdateOffset(1, target), 0);
    assert_eq!(coord.wait_timer_fired(4, target), Action::Reply(4, b":1\r\n".to_vec()));
    // The second acks something short of it.
    coord.handle_message(Message::UpdateOffset(2, target - 1), 0);
    assert_eq!(coord.wait_timer_fired(4, target), Action::Reply(4, b":1\r\n".to_vec()));
    coord.handle_message(Message::UpdateOffset(2, target), 0);
    assert_eq!(coord.wait_timer_fired(4, target), Action::Reply(4, b":2\r\n".to_vec()));
    // A detached replica is no longer counted.
    coord.handle_message(Message::DisconnectReplica(1), 0);
    assert_eq!(coord.wait_timer_fired(4, target), Action::Reply(4, b":1\r\n".to_vec()));
}

#[test]
fn replconf_during_handshake_gets_ok() {
    let steps = dispatch(
        2,
        b"*3\r\n$8\r\nREPLCONF\r\n$14\r\nlistening-port\r\n$4\r\n6380\r\n",
        false,
    );
    assert_eq!(steps.len(), 1);
    assert_eq!(reply_of(&steps, 0), b"+OK\r\n".to_vec());
    let steps = dispatch(2, b"*3\r\n$8\r\nREPLCONF\r\n$3\r\nACK\r\n$2\r\n37\r\n", false);
    assert_eq!(steps, vec![HandlerStep::Send(Message::UpdateOffset(2, 37))]);
}

#[test]
fn replica_info_parses_host_and_port() {
    let ri = ReplicaInfo::parse(b"localhost 6379").expect("host and port");
    assert_eq!(ri.host, b"localhost".to_vec());
    assert_eq!(ri.port, 6379);
    assert!(ReplicaInfo::parse(b"localhost").is_none());
    assert!(ReplicaInfo::parse(b"localhost 99999").is_none());
    assert!(ReplicaInfo::parse(b"localhost abc").is_none());
    // Everything after the first space must be the port.
    assert!(ReplicaInfo::parse(b"10.0.0.1 1 extra").is_none());
}

#[test]
fn wait_target_sums_all_earlier_writes() {
    let mut coord = Coordinator::new();
    coord.handle_message(Message::NewConnection(1), 0);
    let first = b"*3\r\n$3\r\nSET\r\n$1\r\na\r\n$1\r\nb\r\n";
    let second = b"*3\r\n$3\r\nSET\r\n$2\r\nab\r\n$3\r\ncde\r\n";
    coord.handle_message(Message::Data(first.to_vec()), 0);
    coord.handle_message(Message::Data(second.to_vec()), 0);
    let actions = coord.handle_message(Message::WaitHandshake(4, 1, 250), 0);
    match actions[1] {
        Action::StartWaitTimer(_, _, target) => {
            assert_eq!(target as usize, first.len() + second.len());
        },
        ref other => panic!("expected a timer, found {:?}", other),
    }
}
