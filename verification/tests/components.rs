use mail_queue::blob::{
    decode_section, download_access_step, probe_access_step, section_range, AccessCheck,
    BlobClass, BlobSection,
};
use mail_queue::boot::{parse_boot_args, BootCommand, StoreOp};
use mail_queue::certs::{
    AcceptDecision, AcmeAuthKey, CertificateResolver, Core, TcpAcceptor, TcpAcceptorResult,
    TlsManager,
};
use mail_queue::housekeeper::{
    Action, ActionClass, ActionQueue, IndexerState, Inner, TtlCache, TtlEntry,
};
use mail_queue::limiter::ConcurrencyLimiter;
use mail_queue::manage::{
    decode_path_element, required_permission, route_api_request, ApiRoute, FutureTimestamp,
    HttpMethod, Permission, Timestamp,
};
use mail_queue::sieve::{
    activation_plan, blob_needs_fetch, effective_script_name, may_create_script, quota_delta,
    vacation_name, validate_script_name, NameDecision,
};

fn tls_core(certs: Vec<(&str, u64)>, self_signed: Option<u64>) -> Core {
    Core {
        tls: TlsManager {
            certificates: certs.into_iter().map(|(n, c)| (n.to_owned(), c)).collect(),
            self_signed_cert: self_signed,
        },
    }
}

#[test]
fn certificate_resolution_prefers_exact_then_wildcard_then_default() {
    let core = tls_core(
        vec![("mail.example.org", 1), ("example.org", 2), ("*", 3)],
        Some(9),
    );
    let exact = "mail.example.org".to_owned();
    assert_eq!(core.resolve_certificate(Some(&exact)), Some(1));
    let wildcard = "smtp.example.org".to_owned();
    assert_eq!(core.resolve_certificate(Some(&wildcard)), Some(2));
    let unknown = "other.test".to_owned();
    assert_eq!(core.resolve_certificate(Some(&unknown)), Some(3));
    assert_eq!(core.resolve_certificate(None), Some(3));
}

#[test]
fn certificate_resolution_falls_back_to_any_then_self_signed() {
    let single = tls_core(vec![("example.org", 4)], Some(9));
    let name = "unrelated.test".to_owned();
    assert_eq!(single.resolve_certificate(Some(&name)), Some(4));

    let empty = tls_core(vec![], Some(9));
    assert_eq!(empty.resolve_certificate(Some(&name)), Some(9));
    assert_eq!(empty.resolve_certificate(None), Some(9));

    let bare = tls_core(vec![], None);
    assert_eq!(bare.resolve_certificate(None), None);
}

#[test]
fn resolver_and_auth_key_carry_their_parts() {
    let r = CertificateResolver::new(tls_core(vec![("a.b", 1)], None));
    assert_eq!(r.core.tls.certificates.len(), 1);
    let k = AcmeAuthKey::new("p1".to_owned(), 42);
    assert_eq!(k.provider_id, "p1");
    assert_eq!(k.key, 42);
}

#[test]
fn acceptor_distinguishes_tls_and_plain() {
    assert!(TcpAcceptor::Tls { implicit: true }.is_tls());
    assert!(TcpAcceptor::Tls { implicit: false }.is_tls());
    assert!(!TcpAcceptor::Plain.is_tls());

    let implicit = TcpAcceptor::Tls { implicit: true };
    assert_eq!(implicit.accept_decision(false), AcceptDecision::Tls);
    assert_eq!(implicit.accept_decision(true), AcceptDecision::InspectForChallenge);
    let explicit = TcpAcceptor::Tls { implicit: false };
    assert_eq!(explicit.accept_decision(true), AcceptDecision::Plain);
    assert_eq!(TcpAcceptor::Plain.accept_decision(false), AcceptDecision::Plain);

    let r: TcpAcceptorResult<u32, u32> = TcpAcceptorResult::Tls(7);
    assert_eq!(r.unwrap_tls(), 7);
}

#[test]
fn routing_matches_paths_and_methods() {
    let none = String::new();
    let first = |s: &str| s.to_owned();
    assert_eq!(route_api_request(&first("queue"), &none, HttpMethod::Get), ApiRoute::Queue);
    assert_eq!(route_api_request(&first("settings"), &none, HttpMethod::Post), ApiRoute::Settings);
    assert_eq!(route_api_request(&first("reports"), &none, HttpMethod::Get), ApiRoute::Reports);
    assert_eq!(route_api_request(&first("principal"), &none, HttpMethod::Get), ApiRoute::Principal);
    assert_eq!(route_api_request(&first("dns"), &none, HttpMethod::Get), ApiRoute::Dns);
    assert_eq!(route_api_request(&first("store"), &none, HttpMethod::Get), ApiRoute::Store);
    assert_eq!(route_api_request(&first("reload"), &none, HttpMethod::Get), ApiRoute::Reload);
    assert_eq!(route_api_request(&first("dkim"), &none, HttpMethod::Post), ApiRoute::Dkim);
    assert_eq!(route_api_request(&first("update"), &none, HttpMethod::Get), ApiRoute::Update);
    assert_eq!(route_api_request(&first("logs"), &none, HttpMethod::Get), ApiRoute::ViewLogs);
    assert_eq!(route_api_request(&first("logs"), &none, HttpMethod::Post), ApiRoute::NotFound);
    assert_eq!(
        route_api_request(&first("spam-filter"), &none, HttpMethod::Get),
        ApiRoute::SpamFilter
    );
    assert_eq!(route_api_request(&first("restart"), &none, HttpMethod::Get), ApiRoute::Restart);
    assert_eq!(route_api_request(&first("restart"), &none, HttpMethod::Post), ApiRoute::NotFound);
    assert_eq!(route_api_request(&first("oauth"), &none, HttpMethod::Post), ApiRoute::Oauth);
    assert_eq!(
        route_api_request(&first("account"), &first("crypto"), HttpMethod::Post),
        ApiRoute::CryptoPost
    );
    assert_eq!(
        route_api_request(&first("account"), &first("crypto"), HttpMethod::Get),
        ApiRoute::CryptoGet
    );
    assert_eq!(
        route_api_request(&first("account"), &first("auth"), HttpMethod::Get),
        ApiRoute::AuthGet
    );
    assert_eq!(
        route_api_request(&first("account"), &first("auth"), HttpMethod::Post),
        ApiRoute::AuthPost
    );
    assert_eq!(
        route_api_request(&first("account"), &first("other"), HttpMethod::Get),
        ApiRoute::NotFound
    );
    assert_eq!(
        route_api_request(&first("troubleshoot"), &none, HttpMethod::Post),
        ApiRoute::Troubleshoot
    );
    assert_eq!(route_api_request(&first("nothing"), &none, HttpMethod::Get), ApiRoute::NotFound);
}

#[test]
fn permissions_guard_the_sensitive_routes() {
    assert_eq!(required_permission(ApiRoute::Restart), Some(Permission::Restart));
    assert_eq!(required_permission(ApiRoute::Oauth), Some(Permission::AuthenticateOauth));
    assert_eq!(required_permission(ApiRoute::CryptoPost), Some(Permission::ManageEncryption));
    assert_eq!(required_permission(ApiRoute::CryptoGet), Some(Permission::ManageEncryption));
    assert_eq!(required_permission(ApiRoute::AuthGet), Some(Permission::ManagePasswords));
    assert_eq!(required_permission(ApiRoute::AuthPost), Some(Permission::ManagePasswords));
    assert_eq!(required_permission(ApiRoute::Troubleshoot), Some(Permission::Troubleshoot));
    assert_eq!(required_permission(ApiRoute::Queue), None);
    assert_eq!(required_permission(ApiRoute::ViewLogs), None);
}

#[test]
fn path_elements_are_form_decoded() {
    assert_eq!(decode_path_element("john%20doe"), "john doe");
    assert_eq!(decode_path_element("a+b"), "a b");
    assert_eq!(decode_path_element("plain"), "plain");
    assert_eq!(decode_path_element(""), "");
}

#[test]
fn timestamps_parse_rfc3339() {
    let t = Timestamp::parse("2004-06-28T23:43:45Z").expect("valid date");
    assert_eq!(t.into_inner(), 1088466225);
    assert!(Timestamp::parse("not a date").is_none());
    assert!(Timestamp::parse("").is_none());
}

#[test]
fn future_timestamps_reject_the_past() {
    let t = FutureTimestamp::from_instant(2000, 1000).expect("future instant");
    assert_eq!(t.into_inner(), 2000);
    assert!(FutureTimestamp::from_instant(999, 1000).is_none());
    let same = FutureTimestamp::from_instant(1000, 1000).expect("now is acceptable");
    assert_eq!(same.into_inner(), 1000);
    // A date far in the past parses but is rejected against the real clock.
    assert!(FutureTimestamp::parse("2004-06-28T23:43:45Z").is_none());
    assert!(FutureTimestamp::parse("nonsense").is_none());
}

#[test]
fn blob_download_rule() {
    let linked = BlobClass::Linked { account_id: 1, collection: 2, document_id: 3 };
    let reserved = BlobClass::Reserved { account_id: 1, expires: 99 };
    assert_eq!(download_access_step(&linked, false, true, true), AccessCheck::Denied);
    assert_eq!(download_access_step(&linked, true, true, false), AccessCheck::Allowed);
    assert_eq!(
        download_access_step(&linked, true, false, true),
        AccessCheck::NeedSharedMessages { account_id: 1, document_id: 3 }
    );
    assert_eq!(
        download_access_step(&linked, true, false, false),
        AccessCheck::NeedDocumentAccess { account_id: 1, collection: 2, document_id: 3 }
    );
    assert_eq!(download_access_step(&reserved, true, false, false), AccessCheck::Denied);
    assert_eq!(download_access_step(&reserved, true, true, false), AccessCheck::Allowed);
    assert_eq!(reserved.account_id(), 1);
}

#[test]
fn blob_probe_rule() {
    let linked = BlobClass::Linked { account_id: 4, collection: 5, document_id: 6 };
    let reserved = BlobClass::Reserved { account_id: 4, expires: 0 };
    assert_eq!(probe_access_step(&linked, false, true, true, true), AccessCheck::Denied);
    assert_eq!(probe_access_step(&linked, true, true, false, false), AccessCheck::Allowed);
    assert_eq!(
        probe_access_step(&linked, true, false, true, false),
        AccessCheck::NeedSharedMessages { account_id: 4, document_id: 6 }
    );
    assert_eq!(
        probe_access_step(&linked, true, false, false, true),
        AccessCheck::NeedDocumentAccess { account_id: 4, collection: 5, document_id: 6 }
    );
    assert_eq!(probe_access_step(&linked, true, false, false, false), AccessCheck::Denied);
    assert_eq!(probe_access_step(&reserved, true, true, false, false), AccessCheck::Allowed);
    assert_eq!(probe_access_step(&reserved, true, false, false, false), AccessCheck::Denied);
}

#[test]
fn blob_sections_cover_a_saturating_window() {
    let s = BlobSection { offset_start: 10, size: 20, encoding: 0 };
    assert_eq!(section_range(&s), (10, 30));
    let near_end = BlobSection { offset_start: usize::MAX - 5, size: 20, encoding: 0 };
    assert_eq!(section_range(&near_end), (usize::MAX - 5, usize::MAX));
}

#[test]
fn blob_sections_decode_per_their_encoding() {
    assert_eq!(decode_section(b"hello".to_vec(), 0), Some(b"hello".to_vec()));
    assert_eq!(decode_section(b"aGVsbG8=".to_vec(), 2), Some(b"hello".to_vec()));
    assert_eq!(decode_section(b"hello=21".to_vec(), 1), Some(b"hello!".to_vec()));
    assert_eq!(decode_section(b"@@@@bad!".to_vec(), 2), None);
}

#[test]
fn maintenance_queue_hands_out_the_earliest_due_action() {
    let mut q = ActionQueue::new();
    assert!(q.next_due().is_none());
    assert!(q.pop_due(100).is_none());
    q.push(Action { due: 50, event: ActionClass::Session });
    q.push(Action { due: 20, event: ActionClass::Store(3) });
    q.push(Action { due: 80, event: ActionClass::Acme("prov".to_owned()) });
    assert_eq!(q.next_due(), Some(20));

    let first = q.pop_due(60).expect("one action is due");
    assert_eq!(first.due, 20);
    assert!(matches!(first.event, ActionClass::Store(3)));
    let second = q.pop_due(60).expect("another action is due");
    assert_eq!(second.due, 50);
    assert!(matches!(second.event, ActionClass::Session));
    assert!(q.pop_due(60).is_none());
    assert_eq!(q.next_due(), Some(80));
}

#[test]
fn indexer_bookkeeping_runs_one_task_at_a_time() {
    let mut s = IndexerState::new();
    assert!(s.busy && !s.pending);
    // A request during a run is remembered, not started.
    assert!(!s.on_start());
    assert!(s.pending);
    // The run ends: the remembered request starts one follow-up.
    assert!(s.on_done());
    assert!(s.busy && !s.pending);
    // That one ends with nothing pending: fall idle.
    assert!(!s.on_done());
    assert!(!s.busy);
    // Idle: a request starts at once.
    assert!(s.on_start());
    assert!(s.busy && !s.pending);
}

#[test]
fn purge_reclaims_expired_entries_and_idle_limiters() {
    let mut sessions = TtlCache::new();
    sessions.insert(TtlEntry { id: 1, expires: 100 });
    sessions.insert(TtlEntry { id: 2, expires: 300 });
    let mut busy = ConcurrencyLimiter::new(4);
    assert!(busy.try_admit());
    let idle = ConcurrencyLimiter::new(4);
    let mut inner = Inner {
        sessions,
        access_tokens: TtlCache::new(),
        oauth_codes: TtlCache::new(),
        concurrency_limiter: vec![(11, idle), (22, busy)],
    };
    inner.purge(200);
    assert_eq!(inner.sessions.len(), 1);
    assert_eq!(inner.concurrency_limiter.len(), 1);
    assert_eq!(inner.concurrency_limiter[0].0, 22);
}

#[test]
fn boot_arguments_select_the_command() {
    let args = |v: &[&str]| v.iter().map(|s| s.to_string()).collect::<Vec<String>>();

    assert!(matches!(parse_boot_args(args(&["--help"]), None), BootCommand::Help));
    assert!(matches!(parse_boot_args(args(&["-h"]), None), BootCommand::Help));
    assert!(matches!(parse_boot_args(args(&["-V"]), None), BootCommand::Version));
    assert!(matches!(parse_boot_args(args(&[]), None), BootCommand::ShowHelp));

    match parse_boot_args(args(&["--config=/etc/mail.toml"]), None) {
        BootCommand::Run { config_path, op } => {
            assert_eq!(config_path, "/etc/mail.toml");
            assert!(matches!(op, StoreOp::Nothing));
        }
        other => panic!("expected a start command, got another: {}", kind_of(&other)),
    }

    // A value in the same argument is trimmed; one in the next argument is not.
    match parse_boot_args(args(&["--config= /etc/a.toml "]), None) {
        BootCommand::Run { config_path, .. } => assert_eq!(config_path, "/etc/a.toml"),
        other => panic!("expected a start command, got another: {}", kind_of(&other)),
    }
    match parse_boot_args(args(&["-c", "/etc/b.toml"]), None) {
        BootCommand::Run { config_path, .. } => assert_eq!(config_path, "/etc/b.toml"),
        other => panic!("expected a start command, got another: {}", kind_of(&other)),
    }

    match parse_boot_args(args(&["--init", "/srv/mail"]), None) {
        BootCommand::Quickstart(p) => assert_eq!(p, "/srv/mail"),
        other => panic!("expected a quickstart, got another: {}", kind_of(&other)),
    }

    match parse_boot_args(args(&["--config", "x.toml", "--export=/backup"]), None) {
        BootCommand::Run { config_path, op } => {
            assert_eq!(config_path, "x.toml");
            match op {
                StoreOp::Export(p) => assert_eq!(p, "/backup"),
                _ => panic!("expected an export operation"),
            }
        }
        other => panic!("expected a start command, got another: {}", kind_of(&other)),
    }

    // An operation without a configuration cannot run.
    assert!(matches!(
        parse_boot_args(args(&["--import=/backup"]), None),
        BootCommand::MissingConfig
    ));

    // The console takes no value, so it must come last.
    match parse_boot_args(args(&["--config=x.toml", "--console"]), None) {
        BootCommand::Run { op, .. } => assert!(matches!(op, StoreOp::Console)),
        other => panic!("expected a start command, got another: {}", kind_of(&other)),
    }
    match parse_boot_args(args(&["--console", "--config=x.toml"]), None) {
        BootCommand::MissingValue(k) => assert_eq!(k, "console"),
        other => panic!("expected a missing-value complaint, got: {}", kind_of(&other)),
    }

    match parse_boot_args(args(&["--nonsense"]), None) {
        BootCommand::UnknownCommand(k) => assert_eq!(k, "nonsense"),
        other => panic!("expected an unknown-command complaint, got: {}", kind_of(&other)),
    }
    match parse_boot_args(args(&["--nonsense=1"]), None) {
        BootCommand::MissingValue(k) => assert_eq!(k, "nonsense"),
        other => panic!("expected a missing-value complaint, got: {}", kind_of(&other)),
    }

    // An environment-supplied path bypasses the arguments.
    match parse_boot_args(args(&["--help"]), Some("/env.toml".to_owned())) {
        BootCommand::Run { config_path, op } => {
            assert_eq!(config_path, "/env.toml");
            assert!(matches!(op, StoreOp::Nothing));
        }
        other => panic!("expected a start command, got another: {}", kind_of(&other)),
    }

    // Parsing stops at the first argument without a dash.
    assert!(matches!(
        parse_boot_args(args(&["plain", "--help"]), None),
        BootCommand::ShowHelp
    ));
}

fn kind_of(c: &BootCommand) -> &'static str {
    match c {
        BootCommand::Help => "help",
        BootCommand::Version => "version",
        BootCommand::Quickstart(_) => "quickstart",
        BootCommand::Run { .. } => "run",
        BootCommand::ShowHelp => "show-help",
        BootCommand::MissingConfig => "missing-config",
        BootCommand::UnknownCommand(_) => "unknown-command",
        BootCommand::MissingValue(_) => "missing-value",
    }
}

#[test]
fn script_rules() {
    assert!(may_create_script(0, 5));
    assert!(may_create_script(5, 5));
    assert!(!may_create_script(6, 5));

    assert!(vacation_name(&"vacation".to_owned()));
    assert!(vacation_name(&"VaCaTiOn".to_owned()));
    assert!(!vacation_name(&"vacations".to_owned()));
    assert!(!vacation_name(&"holiday".to_owned()));

    let name = "spam-rules".to_owned();
    assert_eq!(validate_script_name(&name, 4, None), NameDecision::TooLong);
    assert_eq!(
        validate_script_name(&"Vacation".to_owned(), 255, None),
        NameDecision::Reserved
    );
    assert_eq!(validate_script_name(&name, 255, None), NameDecision::NeedsUniquenessCheck);
    let other = "old-name".to_owned();
    assert_eq!(
        validate_script_name(&name, 255, Some(&other)),
        NameDecision::NeedsUniquenessCheck
    );
    assert_eq!(validate_script_name(&name, 255, Some(&name)), NameDecision::Accept);
}

#[test]
fn activation_plans() {
    let active = vec![7u32, 8, 9];
    let p = activation_plan(&active, Some(8));
    assert_eq!(p.deactivate, vec![7, 9]);
    assert!(p.activate.is_none());

    let p2 = activation_plan(&active, Some(5));
    assert_eq!(p2.deactivate, vec![7, 8, 9]);
    assert_eq!(p2.activate, Some(5));

    let p3 = activation_plan(&active, None);
    assert_eq!(p3.deactivate, vec![7, 8, 9]);
    assert!(p3.activate.is_none());

    let only = vec![3u32];
    let p4 = activation_plan(&only, Some(3));
    assert!(p4.deactivate.is_empty());
    assert!(p4.activate.is_none());
}

#[test]
fn blob_reuse_and_quota() {
    let same = BlobClass::Linked { account_id: 1, collection: 9, document_id: 4 };
    assert!(!blob_needs_fetch(&same, 1, 9, Some(4)));
    assert!(blob_needs_fetch(&same, 1, 9, Some(5)));
    assert!(blob_needs_fetch(&same, 2, 9, Some(4)));
    assert!(blob_needs_fetch(&same, 1, 8, Some(4)));
    assert!(blob_needs_fetch(&same, 1, 9, None));
    let reserved = BlobClass::Reserved { account_id: 1, expires: 0 };
    assert!(blob_needs_fetch(&reserved, 1, 9, Some(4)));

    assert_eq!(quota_delta(120, 100), 20);
    assert_eq!(quota_delta(100, 120), -20);
    assert_eq!(quota_delta(100, 100), 0);
}

#[test]
fn script_names_default_to_a_random_one() {
    assert_eq!(effective_script_name(Some("mine".to_owned())), "mine");
    let generated = effective_script_name(Some(String::new()));
    assert_eq!(generated.chars().count(), 15);
    let generated2 = effective_script_name(None);
    assert_eq!(generated2.chars().count(), 15);
    assert!(generated2.chars().all(|c| c.is_ascii_alphanumeric()));
}
