use remote_mux::daemon::DaemonOptions;
use remote_mux::domain::{
    ClientDomain, ClientDomainConfig, DomainError, DomainState, RemoteTabEntry, SpawnResponse,
    SshDomain, TlsDomainClient, UnixDomain,
};
use remote_mux::ids::IdAllocator;
use remote_mux::mux::{Mux, TermSize};

fn size() -> TermSize {
    TermSize { rows: 24, cols: 80, pixel_width: 640, pixel_height: 384 }
}

fn unix_config(name: &str) -> ClientDomainConfig {
    ClientDomainConfig::Unix(UnixDomain {
        name: name.to_string(),
        connect_automatically: true,
        socket_path: None,
    })
}

fn entry(window_id: u64, tab_id: u64) -> RemoteTabEntry {
    RemoteTabEntry { window_id, tab_id, title: format!("tab {}", tab_id), size: size() }
}

fn attached(entries: &[RemoteTabEntry]) -> (ClientDomain<()>, Mux, Vec<u64>) {
    let mut ids = IdAllocator::new();
    let mut domain = ClientDomain::new(unix_config("remote"), &mut ids);
    let mut mux = Mux::new();
    domain.begin_attach(());
    let tabs: Vec<RemoteTabEntry> = entries
        .iter()
        .map(|e| RemoteTabEntry {
            window_id: e.window_id,
            tab_id: e.tab_id,
            title: e.title.clone(),
            size: e.size,
        })
        .collect();
    let created = domain.reconcile(&mut mux, &tabs).unwrap();
    (domain, mux, created)
}

#[test]
fn config_name_and_auto_connect() {
    let tls = ClientDomainConfig::Tls(TlsDomainClient {
        name: "tls-host".to_string(),
        connect_automatically: false,
        remote_address: "example.com:8080".to_string(),
    });
    assert_eq!(tls.name(), "tls-host");
    assert!(!tls.connect_automatically());
    let ssh = ClientDomainConfig::Ssh(SshDomain {
        name: "ssh-host".to_string(),
        connect_automatically: true,
        remote_address: "example.com".to_string(),
        username: "someone".to_string(),
    });
    assert_eq!(ssh.name(), "ssh-host");
    assert!(ssh.connect_automatically());
    assert_eq!(unix_config("local").name(), "local");
}

#[test]
fn new_domains_get_distinct_increasing_ids() {
    let mut ids = IdAllocator::new();
    let a: ClientDomain<()> = ClientDomain::new(unix_config("a"), &mut ids);
    let b: ClientDomain<()> = ClientDomain::new(unix_config("b"), &mut ids);
    assert_eq!(a.domain_id(), 0);
    assert_eq!(b.domain_id(), 1);
    assert_eq!(a.domain_name(), "a");
    assert_eq!(a.state(), DomainState::Detached);
}

#[test]
fn attach_then_detach_changes_state() {
    let (mut domain, mut mux, _) = attached(&[]);
    assert_eq!(domain.state(), DomainState::Attached);
    assert!(!mux.was_detached(domain.domain_id()));
    domain.perform_detach(&mut mux);
    assert_eq!(domain.state(), DomainState::Detached);
    assert!(mux.was_detached(domain.domain_id()));
    domain.begin_attach(());
    assert_eq!(domain.detach(&mut mux), Ok(()));
    assert_eq!(domain.state(), DomainState::Detached);
}

#[test]
fn reconcile_creates_one_window_per_remote_window() {
    // five remote tabs across three remote windows
    let (domain, mux, created) =
        attached(&[entry(10, 1), entry(11, 2), entry(10, 3), entry(12, 4), entry(11, 5)]);
    assert_eq!(created.len(), 3);
    assert_eq!(mux.window_count(), 3);
    assert_eq!(mux.tab_count(), 5);
    let remote_tabs: Vec<Option<u64>> = (0..5).map(|i| mux.tab_at(i).remote_tab_id).collect();
    assert_eq!(remote_tabs, vec![Some(1), Some(2), Some(3), Some(4), Some(5)]);
    assert_eq!(domain.remote_to_local_window_id(10), Some(created[0]));
    assert_eq!(domain.remote_to_local_window_id(11), Some(created[1]));
    assert_eq!(domain.remote_to_local_window_id(12), Some(created[2]));
    assert_eq!(domain.remote_to_local_window_id(13), None);
}

#[test]
fn reconcile_with_no_remote_tabs_creates_nothing() {
    let (_domain, mux, created) = attached(&[]);
    assert!(created.is_empty());
    assert_eq!(mux.window_count(), 0);
    assert_eq!(mux.tab_count(), 0);
}

#[test]
fn detached_domain_refuses_work() {
    let mut ids = IdAllocator::new();
    let mut domain: ClientDomain<()> = ClientDomain::new(unix_config("d"), &mut ids);
    let mut mux = Mux::new();
    let w = mux.new_empty_window();
    assert!(matches!(domain.spawn_request(size(), None, w), Err(DomainError::NotAttached)));
    let resp = SpawnResponse { tab_id: 1, window_id: 1 };
    assert_eq!(domain.complete_spawn(&mut mux, size(), w, resp), Err(DomainError::NotAttached));
    assert!(matches!(domain.reconcile(&mut mux, &vec![entry(1, 1)]), Err(DomainError::NotAttached)));
    assert_eq!(domain.remote_to_local_tab_id(&mux, 1), None);
    assert_eq!(mux.tab_count(), 0);
}

#[test]
fn spawn_into_existing_window() {
    let (mut domain, mut mux, created) = attached(&[entry(7, 3)]);
    let w = created[0];
    let request = domain.spawn_request(size(), None, w).unwrap();
    assert_eq!(request.window_id, Some(7));
    assert_eq!(request.domain_id, 0);
    assert_eq!(request.size, size());
    assert!(request.command.is_none());
    let windows_before = mux.window_count();
    let tab = domain
        .complete_spawn(&mut mux, size(), w, SpawnResponse { window_id: 7, tab_id: 42 })
        .unwrap();
    assert_eq!(mux.window_count(), windows_before);
    let last = mux.tab_at(mux.tab_count() - 1);
    assert_eq!(last.tab_id, tab);
    assert_eq!(last.remote_tab_id, Some(42));
    assert_eq!(last.domain_id, domain.domain_id());
}

#[test]
fn spawn_into_new_window_records_mapping() {
    let (mut domain, mut mux, _) = attached(&[]);
    let w = mux.new_empty_window();
    let request = domain
        .spawn_request(size(), Some(vec!["bash".to_string(), "-l".to_string()]), w)
        .unwrap();
    assert_eq!(request.window_id, None);
    assert_eq!(request.command, Some(vec!["bash".to_string(), "-l".to_string()]));
    domain
        .complete_spawn(&mut mux, size(), w, SpawnResponse { window_id: 9, tab_id: 1 })
        .unwrap();
    assert_eq!(domain.remote_to_local_window_id(9), Some(w));
    let again = domain.spawn_request(size(), None, w).unwrap();
    assert_eq!(again.window_id, Some(9));
}

#[test]
fn spawn_into_missing_window_is_unknown_mapping() {
    let (mut domain, mut mux, _) = attached(&[]);
    let resp = SpawnResponse { tab_id: 1, window_id: 9 };
    assert_eq!(domain.complete_spawn(&mut mux, size(), 1234, resp), Err(DomainError::UnknownMapping));
    assert_eq!(mux.tab_count(), 0);
    assert_eq!(domain.remote_to_local_window_id(9), None);
}

#[test]
fn remote_tab_lookup_falls_back_to_tabs() {
    let (mut domain, mux, _) = attached(&[entry(5, 77), entry(5, 78)]);
    let local = domain.remote_to_local_tab_id(&mux, 78);
    assert_eq!(local, Some(mux.tab_at(1).tab_id));
    // now served from the map
    assert_eq!(domain.remote_to_local_tab_id(&mux, 78), local);
    assert_eq!(domain.remote_to_local_tab_id(&mux, 99), None);
}

#[test]
fn daemon_paths_default_under_runtime_dir() {
    let opts = DaemonOptions::default();
    assert_eq!(opts.pid_file("/run/user/1000/mux"), "/run/user/1000/mux/pid");
    assert_eq!(opts.stdout("/run/user/1000/mux/"), "/run/user/1000/mux/log");
    assert_eq!(opts.stderr(""), "log");
    let set = DaemonOptions {
        pid_file: Some("/tmp/p".to_string()),
        stdout: Some("/tmp/out".to_string()),
        stderr: None,
    };
    assert_eq!(set.pid_file("/run"), "/tmp/p");
    assert_eq!(set.stdout("/run"), "/tmp/out");
    assert_eq!(set.stderr("/run"), "/run/log");
}

#[test]
fn reconcile_reports_fresh_increasing_windows() {
    let mut ids = IdAllocator::new();
    let mut domain: ClientDomain<()> = ClientDomain::new(unix_config("r"), &mut ids);
    let mut mux = Mux::new();
    let existing = mux.new_empty_window();
    domain.begin_attach(());
    let tabs = vec![entry(4, 1), entry(5, 2), entry(4, 3)];
    let created = domain.reconcile(&mut mux, &tabs).unwrap();
    assert_eq!(created, vec![existing + 1, existing + 2]);
    assert_ne!(domain.remote_to_local_window_id(4), domain.remote_to_local_window_id(5));
}

#[test]
fn reattach_after_detach_creates_new_windows() {
    let (mut domain, mut mux, first) = attached(&[entry(1, 10), entry(2, 20)]);
    domain.perform_detach(&mut mux);
    domain.begin_attach(());
    let tabs = vec![entry(1, 10), entry(2, 20)];
    let second = domain.reconcile(&mut mux, &tabs).unwrap();
    assert_eq!(second.len(), 2);
    assert!(second.iter().all(|w| !first.contains(w)));
    assert_eq!(mux.window_count(), 4);
}
