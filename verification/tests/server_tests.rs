use funtonic::commander::{DispatchTracker, ExecutorState, find_unsafe_command, JsonCollector, JsonCollectorInner, JsonMode};
use funtonic::config::ED25519Key;
use funtonic::crypto::generate_ed25519_key_pair;
use funtonic::dispatch::{
    dispatch_event, handle_admin_request, plan_client_ids, task_requires_admin, AdminRequest,
    AdminResponse, ExecutionResult, Task, TaskResponse,
};
use funtonic::executor::{
    apply_configuration_modification, execution_result_of_event, executor_handle_task,
    next_reconnect_secs, split_lines, ConfigurationModification, ExecEvent, ExecutorAction, Line,
    Type,
};
use funtonic::keygen::generate_base64_encoded_keys;
use funtonic::keystore::{memory_keystore, KeyStoreError};
use funtonic::meta::{ExecutorMeta, TagMap};
use funtonic::paths::{path_concat2, PathBuilder};
use funtonic::registry::{hex_string, protocol_version_matches, TaskServer, PROTOCOL_VERSION};
use funtonic::signed_payload::{encode_and_sign, sign_payload_bytes, SignedPayload};

fn fresh_key(id: &str) -> (ED25519Key, Vec<u8>) {
    let (private_key, public_key) = generate_ed25519_key_pair().unwrap();
    (ED25519Key::new(id, &private_key), public_key)
}

fn server_with_keys(
    authorized: &[(&str, &ED25519Key)],
    admin: &[(&str, &ED25519Key)],
) -> TaskServer {
    let to_pairs = |keys: &[(&str, &ED25519Key)]| -> Vec<(String, String)> {
        keys.iter()
            .map(|(name, key)| {
                (
                    name.to_string(),
                    key.public_key.clone().expect("public key"),
                )
            })
            .collect()
    };
    TaskServer::new(
        &to_pairs(authorized),
        &to_pairs(admin),
        memory_keystore(),
        memory_keystore(),
    )
    .unwrap()
}

fn meta_named(client_id: &str) -> ExecutorMeta {
    ExecutorMeta::new(client_id.to_string(), "0.0.1".to_string(), TagMap::new())
}

#[test]
fn mod_test() {
    let (private_key, public_key) = generate_ed25519_key_pair().unwrap();

    let mut key_store = memory_keystore();
    key_store.register_key("abcd".to_string(), public_key.to_vec());

    let payload = b"foo // bar".to_vec();
    let signed_payload = encode_and_sign(
        payload,
        &ED25519Key::new("abcd", private_key.as_slice()),
        5,
    )
    .unwrap();

    let decoded = key_store.decode_payload(&signed_payload).unwrap();
    assert_eq!(decoded, b"foo // bar".to_vec());
}

#[test]
fn signed_payload_roundtrip_at_instants() {
    let (key, public_key) = fresh_key("k1");
    let mut store = memory_keystore();
    store.register_key("k1".to_string(), public_key);

    let pkcs8 = key.to_bytes().unwrap();
    let sp = sign_payload_bytes(b"message".to_vec(), &pkcs8, "k1".to_string(), 42, 1000).unwrap();

    // at the validity instant the payload comes back
    let decoded = store.check_payload_at(&sp, 1000).unwrap();
    assert_eq!(decoded, b"message".to_vec());
    // well before expiry too
    assert!(store.check_payload_at(&sp, 0).is_ok());
}

#[test]
fn expired_signature_is_refused() {
    let (key, public_key) = fresh_key("k1");
    let mut store = memory_keystore();
    store.register_key("k1".to_string(), public_key);

    let pkcs8 = key.to_bytes().unwrap();
    let sp = sign_payload_bytes(b"message".to_vec(), &pkcs8, "k1".to_string(), 42, 1000).unwrap();

    match store.check_payload_at(&sp, 1001) {
        Err(KeyStoreError::ExpiredSignature(valid_until, now)) => {
            assert_eq!(valid_until, 1000);
            assert_eq!(now, 1001);
        }
        other => panic!("expected an expired signature, got {:?}", other),
    }
}

#[test]
fn unknown_key_is_refused() {
    let (key, _public_key) = fresh_key("stranger");
    let store = memory_keystore();

    let pkcs8 = key.to_bytes().unwrap();
    let sp =
        sign_payload_bytes(b"message".to_vec(), &pkcs8, "stranger".to_string(), 7, 1000).unwrap();

    match store.check_payload_at(&sp, 10) {
        Err(KeyStoreError::KeyNotFound(id)) => assert_eq!(id, "stranger"),
        other => panic!("expected a missing key, got {:?}", other),
    }
}

#[test]
fn wrong_signature_is_refused() {
    let (key, _) = fresh_key("k1");
    let (_, other_public) = fresh_key("other");
    let mut store = memory_keystore();
    // bind k1 to a different public key than the one that signed
    store.register_key("k1".to_string(), other_public);

    let pkcs8 = key.to_bytes().unwrap();
    let sp = sign_payload_bytes(b"message".to_vec(), &pkcs8, "k1".to_string(), 7, 1000).unwrap();

    match store.check_payload_at(&sp, 10) {
        Err(KeyStoreError::WrongSignature(id)) => assert_eq!(id, "k1"),
        other => panic!("expected a wrong signature, got {:?}", other),
    }
}

#[test]
fn tampered_payload_is_refused() {
    let (key, public_key) = fresh_key("k1");
    let mut store = memory_keystore();
    store.register_key("k1".to_string(), public_key);

    let pkcs8 = key.to_bytes().unwrap();
    let sp = sign_payload_bytes(b"message".to_vec(), &pkcs8, "k1".to_string(), 7, 1000).unwrap();
    let tampered = SignedPayload {
        payload: b"messagE".to_vec(),
        ..sp
    };
    assert!(store.check_payload_at(&tampered, 10).is_err());
}

#[test]
fn keystore_handles_keys() {
    let mut store = memory_keystore();
    store.register_key("a".to_string(), vec![1, 2, 3]);
    store.register_key("b".to_string(), vec![4, 5]);
    assert!(store.has_key("a", &[1, 2, 3]));
    assert!(!store.has_key("a", &[9]));
    assert!(!store.has_key("c", &[1, 2, 3]));

    let removed = store.remove_key("a").unwrap();
    assert_eq!(removed, vec![1, 2, 3]);
    match store.remove_key("a") {
        Err(KeyStoreError::KeyNotFound(id)) => assert_eq!(id, "a"),
        other => panic!("expected a missing key, got {:?}", other),
    }

    let listed = store.list_all();
    assert_eq!(listed.len(), 1);
    assert_eq!(listed[0].0, "b");
}

#[test]
fn tofu_flow_lands_in_unapproved_then_trusted() {
    let mut ts = server_with_keys(&[], &[]);
    ts.handle_executor_key("exec", &[1, 2, 3]);

    let pending = ts.list_unapproved_executor_keys();
    assert_eq!(pending.len(), 1);
    assert_eq!(pending[0].0, "exec");
    assert!(ts.list_trusted_executor_keys().is_empty());

    // the same key again stays pending, without a second entry
    ts.handle_executor_key("exec", &[1, 2, 3]);
    assert_eq!(ts.list_unapproved_executor_keys().len(), 1);

    ts.approve_executor_key("exec").unwrap();
    assert!(ts.list_unapproved_executor_keys().is_empty());
    let trusted = ts.list_trusted_executor_keys();
    assert_eq!(trusted.len(), 1);
    assert_eq!(trusted[0].0, "exec");

    // once trusted, connecting again does not re-enter the pending store
    ts.handle_executor_key("exec", &[1, 2, 3]);
    assert!(ts.list_unapproved_executor_keys().is_empty());
}

#[test]
fn approve_all_is_idempotent_on_no_pending() {
    let mut ts = server_with_keys(&[], &[]);
    ts.handle_executor_key("a", &[1]);
    ts.handle_executor_key("b", &[2]);
    ts.approve_all_executor_keys();
    assert!(ts.list_unapproved_executor_keys().is_empty());
    let trusted_once = ts.list_trusted_executor_keys();
    assert_eq!(trusted_once.len(), 2);

    // nothing is pending: approving everything again changes nothing
    ts.approve_all_executor_keys();
    assert!(ts.list_unapproved_executor_keys().is_empty());
    assert_eq!(ts.list_trusted_executor_keys(), trusted_once);
}

#[test]
fn reconnection_replaces_the_inbox() {
    let mut ts = server_with_keys(&[], &[]);
    ts.register_executor(meta_named("exec"), vec![], 1);
    assert_eq!(ts.get_connected("exec"), Some(1));
    ts.register_executor(meta_named("exec"), vec![], 2);
    assert_eq!(ts.get_connected("exec"), Some(2));
    assert_eq!(ts.known_len(), 1);
}

#[test]
fn wildcard_selects_every_known_executor() {
    let mut ts = server_with_keys(&[], &[]);
    ts.register_executor(meta_named("a"), vec![], 1);
    ts.register_executor(meta_named("b"), vec![], 2);

    let plan = ts.get_channels_to_matching_executors(&funtonic::parser::parse("*").unwrap());
    let ids = plan_client_ids(&plan);
    assert_eq!(ids, vec!["a".to_string(), "b".to_string()]);
    assert_eq!(plan[0].1, Some(1));
    assert_eq!(plan[1].1, Some(2));
}

#[test]
fn disconnected_executor_is_still_matched_without_inbox() {
    let mut ts = server_with_keys(&[], &[]);
    ts.register_executor(meta_named("gone"), vec![], 7);
    // dropping only the connection leaves it known
    let report = ts.drop_executors(&funtonic::parser::parse("gone").unwrap());
    assert_eq!(report, vec![("gone".to_string(), true, true)]);

    ts.register_executor(meta_named("gone"), vec![], 8);
    assert_eq!(ts.get_connected("gone"), Some(8));
}

#[test]
fn drop_by_query_reports_and_clears() {
    let mut ts = server_with_keys(&[], &[]);
    ts.register_executor(meta_named("exec"), vec![], 5);

    let report = match handle_admin_request(&mut ts, &AdminRequest::DropExecutor("*".to_string()))
        .unwrap()
    {
        AdminResponse::DroppedExecutors(r) => r,
        other => panic!("expected a drop report, got {:?}", other),
    };
    assert_eq!(report, vec![("exec".to_string(), true, true)]);

    match handle_admin_request(
        &mut ts,
        &AdminRequest::ListConnectedExecutors("*".to_string()),
    )
    .unwrap()
    {
        AdminResponse::ConnectedExecutors(ids) => assert!(ids.is_empty()),
        other => panic!("expected connected executors, got {:?}", other),
    }
}

#[test]
fn admin_listings_see_the_registry() {
    let mut ts = server_with_keys(&[], &[]);
    ts.register_executor(meta_named("a"), vec![], 1);

    match handle_admin_request(&mut ts, &AdminRequest::ListKnownExecutors("*".to_string()))
        .unwrap()
    {
        AdminResponse::KnownExecutors(ids) => assert_eq!(ids, vec!["a".to_string()]),
        other => panic!("expected known executors, got {:?}", other),
    }
    match handle_admin_request(&mut ts, &AdminRequest::ListRunningTasks).unwrap() {
        AdminResponse::RunningTasks(ids) => assert!(ids.is_empty()),
        other => panic!("expected running tasks, got {:?}", other),
    }
    match handle_admin_request(&mut ts, &AdminRequest::ListConnectedExecutors(":(".to_string())) {
        Err(_) => {}
        other => panic!("expected an invalid query error, got {:?}", other),
    }
}

#[test]
fn task_mailboxes_are_consumed_once() {
    let mut ts = server_with_keys(&[], &[]);
    let task_id = ts.register_new_task(99);
    assert_eq!(ts.get_running_tasks(), vec![task_id.clone()]);
    assert_eq!(ts.get_task_sink(task_id.as_str()), Some(99));
    assert_eq!(ts.get_task_sink(task_id.as_str()), None);
    assert!(ts.get_running_tasks().is_empty());
}

#[test]
fn commander_key_must_be_authorized() {
    let (commander_key, _) = generate_base64_encoded_keys("commander").unwrap();
    let (stranger_key, _) = generate_base64_encoded_keys("stranger").unwrap();
    let ts = server_with_keys(&[("commander", &commander_key)], &[]);

    let good = encode_and_sign(b"payload".to_vec(), &commander_key, 60).unwrap();
    assert!(funtonic::dispatch::authenticate_commander(&ts, &good).is_ok());

    let bad = encode_and_sign(b"payload".to_vec(), &stranger_key, 60).unwrap();
    match funtonic::dispatch::authenticate_commander(&ts, &bad) {
        Err(KeyStoreError::KeyNotFound(id)) => assert_eq!(id, "stranger"),
        other => panic!("expected a missing key, got {:?}", other),
    }
}

#[test]
fn admin_requests_need_the_admin_store() {
    let (regular_key, _) = generate_base64_encoded_keys("regular").unwrap();
    let (admin_key, _) = generate_base64_encoded_keys("admin").unwrap();
    let ts = server_with_keys(&[("regular", &regular_key)], &[("admin", &admin_key)]);

    // a key that is only in the regular store cannot authenticate as admin
    let signed = encode_and_sign(b"request".to_vec(), &regular_key, 60).unwrap();
    assert!(funtonic::dispatch::authenticate_commander(&ts, &signed).is_ok());
    assert!(funtonic::dispatch::authenticate_admin(&ts, &signed).is_err());

    let signed_admin = encode_and_sign(b"request".to_vec(), &admin_key, 60).unwrap();
    assert!(funtonic::dispatch::authenticate_admin(&ts, &signed_admin).is_ok());
}

#[test]
fn key_management_tasks_require_admin() {
    assert!(!task_requires_admin(&Task::ExecuteCommand("ls".to_string())));
    assert!(task_requires_admin(&Task::AuthorizeKey("k".to_string(), vec![1])));
    assert!(task_requires_admin(&Task::RevokeKey("k".to_string())));
    assert!(!task_requires_admin(&Task::StreamingPayload));
}

#[test]
fn dispatch_events_follow_delivery() {
    let submitted = dispatch_event("t".to_string(), "c".to_string(), true, true);
    match submitted {
        TaskResponse::TaskExecutionResult {
            execution_result, ..
        } => assert_eq!(execution_result, ExecutionResult::TaskSubmitted),
        other => panic!("expected an execution result, got {:?}", other),
    }
    let failed_send = dispatch_event("t".to_string(), "c".to_string(), true, false);
    match failed_send {
        TaskResponse::TaskExecutionResult {
            execution_result, ..
        } => assert_eq!(execution_result, ExecutionResult::Disconnected),
        other => panic!("expected an execution result, got {:?}", other),
    }
}

#[test]
fn commander_tracks_a_successful_run() {
    let mut tracker = DispatchTracker::new();
    tracker.apply(&TaskResponse::MatchingExecutors(vec!["exec".to_string()]));
    tracker.apply(&TaskResponse::TaskExecutionResult {
        task_id: "t".to_string(),
        client_id: "exec".to_string(),
        execution_result: ExecutionResult::TaskSubmitted,
    });
    tracker.apply(&TaskResponse::TaskExecutionResult {
        task_id: "t".to_string(),
        client_id: "exec".to_string(),
        execution_result: ExecutionResult::Stdout("hello".to_string()),
    });
    assert!(!tracker.dispatch_success());
    tracker.apply(&TaskResponse::TaskExecutionResult {
        task_id: "t".to_string(),
        client_id: "exec".to_string(),
        execution_result: ExecutionResult::TaskCompleted(0),
    });
    assert!(tracker.dispatch_success());
    assert_eq!(
        tracker.ids_in_state(ExecutorState::Success),
        vec!["exec".to_string()]
    );
    assert_eq!(
        tracker.output_of("exec"),
        Some(&vec!["hello".to_string()])
    );
}

#[test]
fn commander_counts_failures_and_empty_matches() {
    let mut tracker = DispatchTracker::new();
    // zero matching executors is itself a failure
    assert!(!tracker.dispatch_success());

    tracker.apply(&TaskResponse::MatchingExecutors(vec![
        "a".to_string(),
        "b".to_string(),
    ]));
    tracker.apply(&TaskResponse::TaskExecutionResult {
        task_id: "t".to_string(),
        client_id: "a".to_string(),
        execution_result: ExecutionResult::TaskCompleted(0),
    });
    tracker.apply(&TaskResponse::TaskExecutionResult {
        task_id: "t".to_string(),
        client_id: "b".to_string(),
        execution_result: ExecutionResult::TaskCompleted(3),
    });
    assert!(!tracker.dispatch_success());
    assert_eq!(
        tracker.ids_in_state(ExecutorState::Error),
        vec!["b".to_string()]
    );
}

#[test]
fn unsafe_commands_are_flagged() {
    assert_eq!(find_unsafe_command("rm -rf tmp"), Some("rm".to_string()));
    assert_eq!(
        find_unsafe_command("echo ok && /sbin/reboot now"),
        Some("/sbin/reboot".to_string())
    );
    // only the opening word of a segment counts
    assert_eq!(find_unsafe_command("echo ok && sudo reboot"), None);
    assert_eq!(find_unsafe_command("shutdown -h now | halt"), Some("halt".to_string()));
    assert_eq!(find_unsafe_command("ls -la"), None);
    assert_eq!(find_unsafe_command("echo rm"), None);
}

#[test]
fn executor_reacts_to_tasks() {
    let keys = vec![("k".to_string(), "AAAA".to_string())];
    assert_eq!(
        executor_handle_task(Some(Task::ExecuteCommand("ls".to_string())), &keys),
        ExecutorAction::Execute("ls".to_string())
    );
    assert_eq!(executor_handle_task(None, &keys), ExecutorAction::Ignore);
    match executor_handle_task(Some(Task::StreamingPayload), &keys) {
        ExecutorAction::Reject(_) => {}
        other => panic!("expected a rejection, got {:?}", other),
    }
    assert_eq!(
        executor_handle_task(Some(Task::RevokeKey("k".to_string())), &keys),
        ExecutorAction::CompleteAndModify(ConfigurationModification::RevokeKey("k".to_string()))
    );
    match executor_handle_task(Some(Task::RevokeKey("missing".to_string())), &keys) {
        ExecutorAction::Reject(_) => {}
        other => panic!("expected a rejection, got {:?}", other),
    }
}

#[test]
fn configuration_modifications_apply() {
    let mut keys: Vec<(String, String)> = vec![("old".to_string(), "AAAA".to_string())];
    apply_configuration_modification(
        &mut keys,
        ConfigurationModification::AddKey {
            key_id: "fresh".to_string(),
            key_bytes: vec![1, 2, 3],
        },
    );
    assert_eq!(keys.len(), 2);
    assert_eq!(keys[1].0, "fresh");
    apply_configuration_modification(
        &mut keys,
        ConfigurationModification::RevokeKey("old".to_string()),
    );
    assert_eq!(keys.len(), 1);
    assert_eq!(keys[0].0, "fresh");
}

#[test]
fn exec_events_map_to_execution_results() {
    assert_eq!(
        execution_result_of_event(ExecEvent::Started),
        ExecutionResult::Ping
    );
    assert_eq!(
        execution_result_of_event(ExecEvent::Finished(Some(3))),
        ExecutionResult::TaskCompleted(3)
    );
    assert_eq!(
        execution_result_of_event(ExecEvent::Finished(None)),
        ExecutionResult::TaskAborted
    );
    assert_eq!(
        execution_result_of_event(ExecEvent::LineEmitted(Line {
            line_type: Type::Out,
            line: "out".to_string()
        })),
        ExecutionResult::Stdout("out".to_string())
    );
    assert_eq!(
        execution_result_of_event(ExecEvent::LineEmitted(Line {
            line_type: Type::ErrOut,
            line: "err".to_string()
        })),
        ExecutionResult::Stderr("err".to_string())
    );
}

#[test]
fn captured_bytes_split_into_lines() {
    let lines = split_lines(b"foo\nbar\nrest");
    assert_eq!(
        lines,
        vec![b"foo\n".to_vec(), b"bar\n".to_vec(), b"rest".to_vec()]
    );
    assert_eq!(split_lines(b""), Vec::<Vec<u8>>::new());
    assert_eq!(split_lines(b"\n"), vec![b"\n".to_vec()]);
}

#[test]
fn reconnect_backoff_grows_and_resets() {
    assert_eq!(next_reconnect_secs(1, false), 2);
    assert_eq!(next_reconnect_secs(9, false), 10);
    assert_eq!(next_reconnect_secs(10, false), 10);
    assert_eq!(next_reconnect_secs(10, true), 1);
}

#[test]
fn hex_ids_render_lowercase() {
    assert_eq!(hex_string(0), "0");
    assert_eq!(hex_string(255), "ff");
    assert_eq!(hex_string(0xdead_beef), "deadbeef");
}

#[test]
fn protocol_version_check_is_exact() {
    assert!(protocol_version_matches(PROTOCOL_VERSION));
    assert!(!protocol_version_matches("0.0.1"));
    assert!(!protocol_version_matches(""));
}

#[test]
fn path_builder_joins_segments() {
    assert_eq!(path_concat2("/srv/funtonic", "known_executors.yml"), "/srv/funtonic/known_executors.yml");
    assert_eq!(path_concat2("/srv/", "file"), "/srv/file");
    assert_eq!(path_concat2("", "file"), "file");
    assert_eq!(
        PathBuilder::from_path("/a").push("/absolute").build(),
        "/absolute"
    );
}

#[test]
fn generated_keys_roundtrip_through_the_store() {
    let (key, authorized) = generate_base64_encoded_keys("gen").unwrap();
    assert_eq!(key.id, "gen");
    assert_eq!(authorized.len(), 1);
    assert_eq!(authorized[0].0, "gen");

    let store = memory_keystore().init_from_map(&authorized).unwrap();
    let signed = encode_and_sign(b"hi".to_vec(), &key, 60).unwrap();
    assert_eq!(store.decode_payload(&signed).unwrap(), b"hi".to_vec());
}

#[test]
fn executor_supplied_keys_reach_the_authorized_store() {
    let (private_key, public_key) = generate_ed25519_key_pair().unwrap();
    let commander_key = ED25519Key::new("via-exec", &private_key);
    let mut ts = server_with_keys(&[], &[]);
    ts.register_executor(
        meta_named("exec"),
        vec![("via-exec".to_string(), public_key)],
        1,
    );
    let signed = encode_and_sign(b"cmd".to_vec(), &commander_key, 60).unwrap();
    assert!(funtonic::dispatch::authenticate_commander(&ts, &signed).is_ok());
}

#[test]
fn json_collector_shapes_output_by_mode() {
    let mut sep = JsonCollector::new(JsonMode::EscapeSeparate);
    sep.collect_stdout("a", "out1".to_string());
    sep.collect_stderr("a", "err1".to_string());
    sep.collect_stdout("a", "out2".to_string());
    match sep.inner.get("a").unwrap() {
        JsonCollectorInner::EscapeSeparate { stdout, stderr } => {
            assert_eq!(stdout, &vec!["out1".to_string(), "out2".to_string()]);
            assert_eq!(stderr, &vec!["err1".to_string()]);
        }
        other => panic!("wrong shape: {:?}", other),
    }

    let mut merged = JsonCollector::new(JsonMode::EscapeMerge);
    merged.collect_stdout("a", "one".to_string());
    merged.collect_stderr("a", "two".to_string());
    match merged.inner.get("a").unwrap() {
        JsonCollectorInner::EscapeMerge { merged } => {
            assert_eq!(merged, &vec!["one".to_string(), "two".to_string()]);
        }
        other => panic!("wrong shape: {:?}", other),
    }

    let mut stdout_only = JsonCollector::new(JsonMode::StdoutJson);
    stdout_only.collect_stdout("a", "kept".to_string());
    stdout_only.collect_stderr("a", "dropped".to_string());
    match stdout_only.inner.get("a").unwrap() {
        JsonCollectorInner::StdoutJson { stdout } => {
            assert_eq!(stdout, &vec!["kept".to_string()]);
        }
        other => panic!("wrong shape: {:?}", other),
    }
}

#[test]
fn signed_payload_test() {
    let (private_key, public_key) = generate_ed25519_key_pair().unwrap();

    let mut key_store = memory_keystore();
    key_store.register_key("abcd".to_string(), public_key.to_vec());

    let payload = b"foo // bar".to_vec();
    let signed_payload = encode_and_sign(
        payload,
        &ED25519Key::new("abcd", private_key.as_slice()),
        5,
    )
    .unwrap();

    let decoded = key_store.decode_payload(&signed_payload).unwrap();
    assert_eq!(decoded, b"foo // bar".to_vec());
}

#[test]
fn server_refuses_bad_key_material() {
    let bad = vec![("k".to_string(), "not base64!!".to_string())];
    match TaskServer::new(&bad, &Vec::new(), memory_keystore(), memory_keystore()) {
        Err(KeyStoreError::KeyEncodingError(_)) => {}
        Err(other) => panic!("expected a key encoding error, got {:?}", other),
        Ok(_) => panic!("expected a key encoding error, got a server"),
    }
    match memory_keystore().init_from_map(&bad) {
        Err(KeyStoreError::KeyEncodingError(_)) => {}
        Err(other) => panic!("expected a key encoding error, got {:?}", other),
        Ok(_) => panic!("expected a key encoding error, got a store"),
    }
}

#[test]
fn loaded_keys_bind_the_decoded_bytes() {
    let (key, authorized) = generate_base64_encoded_keys("gen").unwrap();
    let store = memory_keystore().init_from_map(&authorized).unwrap();
    let (_, decoded) = {
        let pkcs8 = key.to_bytes().unwrap();
        (pkcs8, key.public_key.clone().unwrap())
    };
    // the stored bytes are the decode of the configured base64 value
    let listed = store.list_all();
    assert_eq!(listed, vec![("gen".to_string(), decoded)]);
}

#[test]
fn task_ids_are_lowercase_hex() {
    let mut ts = server_with_keys(&[], &[]);
    let id = ts.register_new_task(7);
    assert!(!id.is_empty());
    assert!(id.chars().all(|c| c.is_ascii_hexdigit() && !c.is_ascii_uppercase()));
}

#[test]
fn admin_errors_leave_the_server_unchanged() {
    let mut ts = server_with_keys(&[], &[]);
    ts.handle_executor_key("pending", &[1]);
    // approving a key that is not pending fails and changes nothing
    match handle_admin_request(&mut ts, &AdminRequest::ApproveExecutorKey("ghost".to_string())) {
        Err(_) => {}
        other => panic!("expected a failure, got {:?}", other),
    }
    assert_eq!(ts.list_unapproved_executor_keys().len(), 1);
    assert!(ts.list_trusted_executor_keys().is_empty());
}
