use sql_doctester::engine::{
    config_text, connection_string, lasting_log_names, temporary_log_names, Action, Event,
    Instance, Phase, ProcessState, RoleGuard, ShutdownError, StartupError, ToolCall,
    HEALTH_TIMEOUT_SECS, PROBE_INTERVAL_SECS,
};

fn ready() -> Instance {
    let mut inst = Instance::new();
    assert_eq!(inst.step(Event::Provision), Action::InitStorage);
    assert_eq!(inst.step(Event::StorageInitialized { ok: true }), Action::AppendConfig);
    assert_eq!(inst.step(Event::ConfigAppended { ok: true }), Action::Spawn);
    assert_eq!(inst.step(Event::Spawned { ok: true }), Action::Probe);
    assert_eq!(
        inst.step(Event::Probed {
            connected: true,
            exited: false
        }),
        Action::RunTests
    );
    inst
}

#[test]
fn instance_comes_up_step_by_step() {
    let mut inst = Instance::new();
    assert_eq!(inst.phase(), Phase::Uninitialized);
    inst.step(Event::Provision);
    assert_eq!(inst.phase(), Phase::Initializing);
    inst.step(Event::StorageInitialized { ok: true });
    assert_eq!(inst.phase(), Phase::Initializing);
    inst.step(Event::ConfigAppended { ok: true });
    assert_eq!(inst.phase(), Phase::Starting);
    inst.step(Event::Spawned { ok: true });
    assert_eq!(inst.phase(), Phase::HealthChecking);
    inst.step(Event::Probed {
        connected: true,
        exited: false,
    });
    assert_eq!(inst.phase(), Phase::Ready);
    assert_eq!(inst.startup_error(), None);
}

#[test]
fn probes_alternate_with_pauses_until_the_timeout() {
    assert_eq!(HEALTH_TIMEOUT_SECS, 60);
    assert_eq!(PROBE_INTERVAL_SECS, 1);
    let mut inst = Instance::new();
    inst.step(Event::Provision);
    inst.step(Event::StorageInitialized { ok: true });
    inst.step(Event::ConfigAppended { ok: true });
    inst.step(Event::Spawned { ok: true });
    let silent = Event::Probed {
        connected: false,
        exited: false,
    };
    for waited_secs in 1..60 {
        assert_eq!(inst.step(silent), Action::Sleep);
        assert_eq!(inst.step(Event::Slept { waited_secs }), Action::Probe);
    }
    assert_eq!(inst.step(silent), Action::Sleep);
    assert_eq!(inst.step(Event::Slept { waited_secs: 60 }), Action::CheckStatus);
    assert_eq!(inst.startup_error(), Some(StartupError::TimedOut));
}

#[test]
fn a_process_that_ends_while_watched_fails_at_once() {
    let mut inst = Instance::new();
    inst.step(Event::Provision);
    inst.step(Event::StorageInitialized { ok: true });
    inst.step(Event::ConfigAppended { ok: true });
    inst.step(Event::Spawned { ok: true });
    assert_eq!(
        inst.step(Event::Probed {
            connected: false,
            exited: true
        }),
        Action::CheckStatus
    );
    assert_eq!(inst.startup_error(), Some(StartupError::ProcessExited));
    assert_eq!(
        inst.step(Event::StatusChecked {
            state: ProcessState::Exited
        }),
        Action::RenameLogs { crashed: true }
    );
    assert_eq!(inst.phase(), Phase::Crashed);
    assert_eq!(inst.step(Event::LogsRenamed), Action::Rest);
    assert_eq!(inst.phase(), Phase::Terminated);
    assert!(inst.storage_left());
}

#[test]
fn failed_initialisation_deletes_the_storage() {
    let mut inst = Instance::new();
    inst.step(Event::Provision);
    assert_eq!(
        inst.step(Event::StorageInitialized { ok: false }),
        Action::DeleteStorage
    );
    assert_eq!(inst.startup_error(), Some(StartupError::InitFailed));
    assert_eq!(inst.step(Event::StorageDeleted), Action::Rest);
    assert_eq!(inst.phase(), Phase::Terminated);
    assert!(!inst.storage_left());
}

#[test]
fn failed_configuration_and_failed_spawn_are_startup_errors() {
    let mut inst = Instance::new();
    inst.step(Event::Provision);
    inst.step(Event::StorageInitialized { ok: true });
    assert_eq!(inst.step(Event::ConfigAppended { ok: false }), Action::DeleteStorage);
    assert_eq!(inst.startup_error(), Some(StartupError::ConfigFailed));

    let mut inst = Instance::new();
    inst.step(Event::Provision);
    inst.step(Event::StorageInitialized { ok: true });
    inst.step(Event::ConfigAppended { ok: true });
    assert_eq!(inst.step(Event::Spawned { ok: false }), Action::DeleteStorage);
    assert_eq!(inst.startup_error(), Some(StartupError::SpawnFailed));
}

#[test]
fn clean_shutdown_deletes_the_storage_last() {
    let mut inst = ready();
    assert_eq!(inst.step(Event::Teardown), Action::CheckStatus);
    assert_eq!(
        inst.step(Event::StatusChecked {
            state: ProcessState::Running
        }),
        Action::SendSignal
    );
    assert_eq!(inst.phase(), Phase::ShuttingDown);
    assert_eq!(inst.step(Event::SignalSent { ok: true }), Action::AwaitExit);
    assert_eq!(
        inst.step(Event::ProcessGone),
        Action::RenameLogs { crashed: false }
    );
    assert!(inst.storage_left());
    assert_eq!(inst.step(Event::LogsRenamed), Action::DeleteStorage);
    assert_eq!(inst.step(Event::StorageDeleted), Action::Rest);
    assert_eq!(inst.phase(), Phase::Terminated);
    assert!(!inst.storage_left());
    assert_eq!(inst.shutdown_error(), None);
}

#[test]
fn crash_keeps_the_storage() {
    let mut inst = ready();
    inst.step(Event::Teardown);
    assert_eq!(
        inst.step(Event::StatusChecked {
            state: ProcessState::Exited
        }),
        Action::RenameLogs { crashed: true }
    );
    assert_eq!(inst.phase(), Phase::Crashed);
    assert_eq!(inst.step(Event::LogsRenamed), Action::Rest);
    assert_eq!(inst.step(Event::StorageDeleted), Action::Rest);
    assert!(inst.storage_left());
}

#[test]
fn failed_signal_leaves_everything_in_place() {
    let mut inst = ready();
    inst.step(Event::Teardown);
    inst.step(Event::StatusChecked {
        state: ProcessState::Running,
    });
    assert_eq!(inst.step(Event::SignalSent { ok: false }), Action::Rest);
    assert_eq!(inst.phase(), Phase::Terminated);
    assert_eq!(inst.shutdown_error(), Some(ShutdownError::SignalFailed));
    assert!(inst.storage_left());
}

#[test]
fn unknown_process_state_ends_teardown() {
    let mut inst = ready();
    inst.step(Event::Teardown);
    assert_eq!(
        inst.step(Event::StatusChecked {
            state: ProcessState::Unknown
        }),
        Action::Rest
    );
    assert_eq!(inst.shutdown_error(), Some(ShutdownError::StatusUnknown));
    assert!(inst.storage_left());
}

#[test]
fn teardown_is_heeded_once() {
    let mut inst = ready();
    assert_eq!(inst.step(Event::Teardown), Action::CheckStatus);
    assert_eq!(inst.step(Event::Teardown), Action::CheckStatus);
    inst.step(Event::StatusChecked {
        state: ProcessState::Exited,
    });
    inst.step(Event::LogsRenamed);
    assert_eq!(inst.step(Event::Teardown), Action::Rest);
    assert_eq!(inst.step(Event::Provision), Action::Rest);
    assert_eq!(inst.phase(), Phase::Terminated);
}

#[test]
fn teardown_of_nothing_ends_at_once() {
    let mut inst = Instance::new();
    assert_eq!(inst.step(Event::Teardown), Action::Rest);
    assert_eq!(inst.phase(), Phase::Terminated);
    assert_eq!(inst.step(Event::Provision), Action::Rest);
}

#[test]
fn events_out_of_turn_change_nothing() {
    let mut inst = Instance::new();
    assert_eq!(inst.step(Event::Spawned { ok: true }), Action::Rest);
    assert_eq!(inst.phase(), Phase::Uninitialized);
    inst.step(Event::Provision);
    assert_eq!(inst.step(Event::LogsRenamed), Action::InitStorage);
    assert_eq!(inst.step(Event::StorageDeleted), Action::InitStorage);
    assert!(inst.storage_left());
}

#[test]
fn role_is_made_once() {
    let mut guard = RoleGuard::new();
    assert!(guard.needed());
    guard.record(false);
    assert!(guard.needed());
    guard.record(true);
    assert!(!guard.needed());
    guard.record(false);
    assert!(!guard.needed());
}

#[test]
fn tools_are_called_with_their_arguments() {
    let dir = "/tmp/x/data".to_string();
    let port = "1763".to_string();
    let name = "stateful-tests-1".to_string();
    let call = ToolCall::InitStorage {
        data_dir: dir.clone(),
    };
    assert_eq!(call.program(), "initdb");
    assert_eq!(call.arguments(), vec!["-D", "/tmp/x/data", "--no-clean", "--no-sync"]);
    let call = ToolCall::Serve {
        data_dir: dir,
        port: port.clone(),
    };
    assert_eq!(call.program(), "postgres");
    assert_eq!(call.arguments(), vec!["-D", "/tmp/x/data", "-F", "-c", "port=1763"]);
    let call = ToolCall::Probe { port: port.clone() };
    assert_eq!(call.program(), "psql");
    assert_eq!(call.arguments(), vec!["-X", "postgres", "-p", "1763"]);
    let call = ToolCall::CreateDatabase {
        port: port.clone(),
        name: name.clone(),
    };
    assert_eq!(call.program(), "createdb");
    assert_eq!(call.arguments(), vec!["-p", "1763", "stateful-tests-1"]);
    let call = ToolCall::CreateRole {
        port: port.clone(),
        name: name.clone(),
    };
    assert_eq!(call.program(), "psql");
    assert_eq!(
        call.arguments(),
        vec![
            "-X",
            "-p",
            "1763",
            "-c",
            "CREATE ROLE postgres WITH LOGIN;",
            "stateful-tests-1"
        ]
    );
    let call = ToolCall::DropDatabase { port, name };
    assert_eq!(call.program(), "dropdb");
    assert_eq!(call.arguments(), vec!["-f", "-p", "1763", "stateful-tests-1"]);
}

#[test]
fn texts_for_the_engine() {
    assert_eq!(
        connection_string("1763", "stateless_test_db"),
        "host=localhost port=1763 user=postgres dbname=stateless_test_db application_name=tests"
    );
    let config = config_text();
    assert!(config.starts_with("\n# Configuration added by test runner\n"));
    assert!(config.contains("log_lock_waits = on\n"));
    assert!(config.contains("log_checkpoints = on\n"));
    assert!(config.contains("log_autovacuum_min_duration = 0\n"));
    assert!(config.contains("log_temp_files = 128kB\n"));
    assert!(config.contains("log_line_prefix = '%m %b[%p] %q%a '\n"));
    assert!(config.ends_with("max_prepared_transactions = 2\n"));
    assert_eq!(
        temporary_log_names(),
        (
            "postmaster-stdout.temp.log".to_string(),
            "postmaster-stderr.temp.log".to_string()
        )
    );
    assert_eq!(
        lasting_log_names(false),
        (
            "postmaster-out.log".to_string(),
            "postmaster-err.log".to_string()
        )
    );
    assert_eq!(
        lasting_log_names(true),
        (
            "postmaster-crash-out.log".to_string(),
            "postmaster-crash-err.log".to_string()
        )
    );
}
