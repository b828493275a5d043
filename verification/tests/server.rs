use raft::replication::RaftConsensus as SimpleReplication;
use raft::kvapp::KVApp;
use raft::raftconsensus::{split_addressed, AppendEntriesResponse, RaftConsensus};
use raft::raftlog::RaftLog;
use raft::raftserver::{
    election_timeout_secs, handle_console_command, handle_event, heartbeat_requests, other_servers,
    parse_args, parse_server_id, ArgError, ConsoleAction, RaftConsole, RequestVote, ServerAction,
};
use raft::shared::{InternalMessage, RaftNetMessage, Role};
use raft::traffic::{LightState, TrafficController};

#[test]
fn console_commands_set_the_role() {
    let mut c = RaftConsensus::new(1, 3, Role::Follower);
    assert_eq!(handle_console_command(&mut c, "leader"), ConsoleAction::SetRole(Role::Leader));
    assert_eq!(c.role, Role::Leader);
    assert_eq!(handle_console_command(&mut c, "candidate"), ConsoleAction::SetRole(Role::Candidate));
    assert_eq!(c.role, Role::Candidate);
    assert_eq!(handle_console_command(&mut c, "follower"), ConsoleAction::SetRole(Role::Follower));
    assert_eq!(c.role, Role::Follower);
    assert_eq!(handle_console_command(&mut c, "state"), ConsoleAction::ShowState);
    assert_eq!(handle_console_command(&mut c, "log"), ConsoleAction::ShowLog);
    assert_eq!(handle_console_command(&mut c, " \t "), ConsoleAction::Ignore);
    assert_eq!(handle_console_command(&mut c, "leader "), ConsoleAction::Unknown);
    assert_eq!(handle_console_command(&mut c, "flood"), ConsoleAction::Unknown);
    assert_eq!(c.role, Role::Follower);
    assert_eq!(RaftConsole::new(4).server_id, 4);
}

#[test]
fn heartbeats_go_to_every_other_server_from_a_leader_only() {
    let mut c = RaftConsensus::new(2, 4, Role::Follower);
    assert!(heartbeat_requests(&c).is_empty());
    c.role = Role::Leader;
    c.new_client_command("set a 1".to_string());
    c.next_index[3] = 1;
    c.next_index[4] = 0;
    let out = heartbeat_requests(&c);
    let ids: Vec<usize> = out.iter().map(|(id, _)| *id).collect();
    assert_eq!(ids, vec![1, 3, 4]);
    let (_, r3) = &out[1];
    assert_eq!((r3.prev_index, r3.prev_term, r3.entries.len()), (0, 0, 1));
    assert_eq!(r3.entries[0].command, "set a 1");
    let (_, r4) = &out[2];
    assert_eq!((r4.prev_index, r4.prev_term, r4.entries.len()), (0, 0, 0));
    assert_eq!((r4.term, r4.leader_id, r4.leader_commit_index), (1, 2, 0));
}

#[test]
fn starting_an_election() {
    let mut c = RaftConsensus::new(3, 5, Role::Follower);
    c.log.add_new_command(1, "a".to_string());
    c.log.add_new_command(4, "b".to_string());
    let r = c.start_election();
    assert_eq!(c.role, Role::Candidate);
    assert_eq!(c.current_term, 2);
    assert_eq!(c.voted_for, Some(3));
    assert_eq!((r.term, r.candidate_id, r.last_log_index, r.last_log_term), (2, 3, 2, 4));
}

#[test]
fn leader_answers_move_the_indices() {
    let mut leader = RaftConsensus::new(1, 3, Role::Leader);
    for i in 1..=4 {
        leader.new_client_command(format!("cmd{}", i));
    }
    leader.handle_append_entries_response(AppendEntriesResponse { follower_id: 2, match_index: 4, term: 1, success: true });
    assert_eq!((leader.match_index[2], leader.next_index[2]), (4, 5));
    // slots 1..=3 hold 0, 4, 0: the lower median is 0.
    assert_eq!(leader.commit_index, 0);
    leader.handle_append_entries_response(AppendEntriesResponse { follower_id: 3, match_index: 2, term: 1, success: true });
    assert_eq!(leader.commit_index, 2);
    leader.handle_append_entries_response(AppendEntriesResponse { follower_id: 3, match_index: 9, term: 1, success: false });
    assert_eq!(leader.next_index[3], 2);
    // A refusal from a follower in a later term leaves everything as it was.
    leader.handle_append_entries_response(AppendEntriesResponse { follower_id: 3, match_index: 9, term: 5, success: false });
    assert_eq!(leader.next_index[3], 2);
}

#[test]
fn follower_commit_index_only_rises() {
    let mut leader = RaftConsensus::new(1, 2, Role::Leader);
    let mut follower = RaftConsensus::new(2, 2, Role::Follower);
    leader.commit_index = 3;
    let (_, ok) = follower.handle_append_entries_request(leader.update_follower(2));
    assert!(ok);
    assert_eq!(follower.commit_index, 3);
    leader.commit_index = 1;
    follower.handle_append_entries_request(leader.update_follower(2));
    assert_eq!(follower.commit_index, 3);
    let (to, answer) = follower.respond_to_leader(1, false);
    assert_eq!((to, answer.follower_id, answer.match_index, answer.term, answer.success), (1, 2, 0, 1, false));
}

#[test]
fn requests_from_an_older_term_are_refused() {
    let leader = RaftConsensus::new(1, 2, Role::Leader);
    let mut follower = RaftConsensus::new(2, 2, Role::Follower);
    follower.current_term = 2;
    let before = follower.log.entries.clone();
    let mut leader = leader;
    leader.commit_index = 5;
    let (leader_id, ok) = follower.handle_append_entries_request(leader.update_follower(2));
    assert_eq!((leader_id, ok), (1, false));
    assert_eq!(follower.log.entries, before);
    assert_eq!(follower.commit_index, 0);
    assert_eq!(follower.current_term, 2);
}

#[test]
fn a_follower_takes_a_newer_term() {
    let mut leader = RaftConsensus::new(1, 2, Role::Leader);
    leader.current_term = 4;
    let mut follower = RaftConsensus::new(2, 2, Role::Follower);
    let (_, ok) = follower.handle_append_entries_request(leader.update_follower(2));
    assert!(ok);
    assert_eq!(follower.current_term, 4);
    let (_, answer) = follower.respond_to_leader(1, ok);
    assert_eq!(answer.term, 4);
}

#[test]
fn entries_of_an_earlier_term_are_not_committed_by_counting() {
    let mut leader = RaftConsensus::new(1, 3, Role::Leader);
    leader.log.add_new_command(1, "old".to_string());
    leader.current_term = 2;
    leader.handle_append_entries_response(AppendEntriesResponse { follower_id: 2, match_index: 1, term: 2, success: true });
    leader.handle_append_entries_response(AppendEntriesResponse { follower_id: 3, match_index: 1, term: 2, success: true });
    assert_eq!(leader.commit_index, 0);
    leader.new_client_command("new".to_string());
    leader.handle_append_entries_response(AppendEntriesResponse { follower_id: 2, match_index: 2, term: 2, success: true });
    assert_eq!(leader.commit_index, 0);
    leader.handle_append_entries_response(AppendEntriesResponse { follower_id: 3, match_index: 2, term: 2, success: true });
    assert_eq!(leader.commit_index, 2);
}

#[test]
fn outbound_queue_keeps_order() {
    let mut c = RaftConsensus::new(1, 2, Role::Leader);
    c.send("2 first".to_string());
    c.send("2 second".to_string());
    assert_eq!(c.outbound, vec!["2 first".to_string(), "2 second".to_string()]);
}

#[test]
fn queued_messages_carry_the_server_number() {
    let mut c = RaftConsensus::new(1, 3, Role::Leader);
    c.queue_message(2, "{\"term\":1}");
    c.queue_message(13, "hello world");
    assert_eq!(c.outbound, vec!["2 {\"term\":1}".to_string(), "13 hello world".to_string()]);
    let lines = c.take_outbound();
    assert!(c.outbound.is_empty());
    assert_eq!(split_addressed(&lines[0]), Some((2, "{\"term\":1}".to_string())));
    assert_eq!(split_addressed(&lines[1]), Some((13, "hello world".to_string())));
}

#[test]
fn unaddressed_lines_do_not_split() {
    assert_eq!(split_addressed("nospace"), None);
    assert_eq!(split_addressed("x hello"), None);
    assert_eq!(split_addressed(" hello"), None);
    assert_eq!(split_addressed("+7 hi"), Some((7, "hi".to_string())));
    assert_eq!(split_addressed("3 "), Some((3, String::new())));
}

#[test]
fn applying_committed_entries_in_order() {
    let mut log = RaftLog::new();
    log.add_new_command(1, "set x 1".to_string());
    log.add_new_command(1, "incr x".to_string());
    log.add_new_command(1, "get x".to_string());
    log.add_new_command(2, "delete x".to_string());
    let mut app = KVApp::new();
    let replies = app.apply_committed(&log, 2).unwrap();
    assert_eq!(replies, vec!["Set".to_string(), "Incr 2".to_string()]);
    assert_eq!(app.last_applied, 2);
    // In two steps or one: the same store.
    let replies = app.apply_committed(&log, 4).unwrap();
    assert_eq!(replies, vec!["2".to_string(), "Deleted value: 2".to_string()]);
    assert_eq!(app.store.get("x"), None);
    assert_eq!(app.apply_committed(&log, 3).unwrap(), Vec::<String>::new());
    assert_eq!(app.last_applied, 4);
}

#[test]
fn applying_stops_before_an_overflowing_incr() {
    let mut log = RaftLog::new();
    log.add_new_command(1, "set x 2147483647".to_string());
    log.add_new_command(1, "set y 1".to_string());
    log.add_new_command(1, "incr x".to_string());
    log.add_new_command(1, "set z 1".to_string());
    let mut app = KVApp::new();
    assert_eq!(app.apply_committed(&log, 4), Err(3));
    assert_eq!(app.last_applied, 2);
    assert_eq!(app.store.get("y"), Some("1".to_string()));
    assert_eq!(app.store.get("z"), None);
    assert_eq!(app.apply_command("incr y".to_string()), "Incr 2");
}

#[test]
fn server_arguments() {
    assert_eq!(parse_server_id(Some("3")), Ok(3));
    assert_eq!(parse_server_id(Some("+5")), Ok(5));
    assert_eq!(parse_server_id(None), Err(ArgError::MissingServerId));
    assert_eq!(parse_server_id(Some("x")), Err(ArgError::NotANumber));
    assert_eq!(parse_server_id(Some("-1")), Err(ArgError::NotANumber));
    assert_eq!(parse_server_id(Some("")), Err(ArgError::NotANumber));
    assert_eq!(parse_server_id(Some("0")), Err(ArgError::ServerIdOutOfRange));
    assert_eq!(parse_server_id(Some("6")), Err(ArgError::ServerIdOutOfRange));
    assert_eq!(parse_args(Some("2"), Some("5")), Ok((2, 5)));
    assert_eq!(parse_args(Some("2"), None), Err(ArgError::MissingServerCount));
    assert_eq!(parse_args(Some("2"), Some("five")), Err(ArgError::NotANumber));
    assert_eq!(parse_args(Some("9"), Some("5")), Err(ArgError::ServerIdOutOfRange));
}

#[test]
fn election_timeouts_lie_between_three_and_five_seconds() {
    for _ in 0..50 {
        let s = election_timeout_secs();
        assert!((3..=5).contains(&s));
    }
}

#[test]
fn traffic_controller_counts_ticks_per_phase() {
    let mut c = TrafficController::new();
    for _ in 0..30 {
        assert_eq!(c.on_message("TICK"), None);
    }
    assert_eq!(c.on_message("NS-button"), None);
    assert_eq!(c.ticks, 30);
    assert_eq!(c.on_message("TICK"), Some(LightState::YR));
    assert_eq!(c.ticks, 0);
    for _ in 0..5 {
        assert_eq!(c.on_message("TICK"), None);
    }
    assert_eq!(c.on_message("TICK"), Some(LightState::RG));
    assert_eq!(c.lights.current_state, LightState::RG);
}

#[test]
fn simple_replication_sends_the_newest_entry() {
    let mut leader = SimpleReplication::new(1, 2, 3);
    assert_eq!(leader.next_index, vec![0, 0, 0, 0]);
    leader.new_client_command("set a 1".to_string());
    leader.new_client_command("set b 2".to_string());
    let request = leader.update_followers();
    assert_eq!((request.prev_index, request.prev_term), (2, 2));
    assert_eq!(request.entries.len(), 1);
    assert_eq!(request.entries[0].command, "set b 2");
    let mut follower = SimpleReplication::new(2, 2, 3);
    follower.log.add_new_command(2, "set a 1".to_string());
    let request = leader.update_followers();
    follower.handle_append_entries(request);
    // prev_index is the newest entry's own index, which the follower lacks.
    assert_eq!(follower.log.entries.len(), 2);
    follower.send("1 ok".to_string());
    assert_eq!(follower.outbound, vec!["1 ok".to_string()]);
    assert!(follower.inbound.is_empty());
}

#[test]
fn other_servers_skip_this_one() {
    let c = RaftConsensus::new(3, 5, Role::Follower);
    assert_eq!(other_servers(&c), vec![1, 2, 4, 5]);
    let c = RaftConsensus::new(1, 1, Role::Follower);
    assert!(other_servers(&c).is_empty());
}

#[test]
fn events_of_the_main_loop() {
    let mut c = RaftConsensus::new(2, 3, Role::Follower);
    let (action, heard) = handle_event(&mut c, InternalMessage::ConsoleCommand("log".to_string()));
    assert!(matches!(action, ServerAction::ShowLog));
    assert!(!heard);
    let (action, _) = handle_event(&mut c, InternalMessage::ConsoleCommand("ping".to_string()));
    assert!(matches!(action, ServerAction::UnknownCommand(ref s) if s == "ping"));
    let (action, heard) = handle_event(&mut c, InternalMessage::Tick);
    assert!(matches!(action, ServerAction::AppendEntries(ref r) if r.is_empty()));
    assert!(!heard);
    let vote = RequestVote { term: 4, candidate_id: 1, last_log_index: 0, last_log_term: 0 };
    let (action, heard) = handle_event(&mut c, InternalMessage::IncomingRaftMessage(RaftNetMessage::RequestVote(vote)));
    assert!(matches!(action, ServerAction::VoteRequested(v) if v.term == 4));
    assert!(heard);
    let (action, heard) = handle_event(&mut c, InternalMessage::StartElection);
    match action {
        ServerAction::RequestVotes(ids, request) => {
            assert_eq!(ids, vec![1, 3]);
            assert_eq!((request.term, request.candidate_id), (2, 2));
        }
        other => panic!("unexpected {:?}", other),
    }
    assert!(heard);
    assert_eq!(c.role, Role::Candidate);
    let (action, heard) = handle_event(&mut c, InternalMessage::ConsoleCommand("leader".to_string()));
    assert!(matches!(action, ServerAction::Nothing));
    assert!(heard);
    let (action, _) = handle_event(&mut c, InternalMessage::Tick);
    match action {
        ServerAction::AppendEntries(requests) => {
            let ids: Vec<usize> = requests.iter().map(|(id, _)| *id).collect();
            assert_eq!(ids, vec![1, 3]);
        }
        other => panic!("unexpected {:?}", other),
    }
}
