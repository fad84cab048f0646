use maximum_league::credentials::{discovery_from_process, DiscoveryStep};
use maximum_league::credentials::{
    credentials_from_captures, credentials_from_command_line, discover_credentials, parse_lockfile,
    LcuCredentials,
};
use maximum_league::client::{basic_authorization, is_success_status, lcu_authorization, lcu_url};

fn creds(port: u16, password: &str) -> LcuCredentials {
    LcuCredentials { port, password: password.to_string() }
}

#[test]
fn lockfile_is_read_as_port_and_password() {
    let c = parse_lockfile("LeagueClient:12345:54321:s3cr3t-T0ken:https").unwrap();
    assert_eq!(c.port, 54321);
    assert_eq!(c.password, "s3cr3t-T0ken");
}

#[test]
fn lockfile_round_trip_of_written_fields() {
    let text = format!("{}:{}:{}:{}", "LeagueClient", "4242", 65535u16, "tok_en");
    let c = parse_lockfile(&text).unwrap();
    assert_eq!(c.port, 65535);
    assert_eq!(c.password, "tok_en");
}

#[test]
fn lockfile_surrounding_white_space_is_trimmed() {
    let c = parse_lockfile("  \n\tLeagueClient:1:8080:pw \r\n").unwrap();
    assert_eq!(c.port, 8080);
    assert_eq!(c.password, "pw");
    let c = parse_lockfile("\u{3000}LeagueClient:1:8080:pw\u{a0}").unwrap();
    assert_eq!(c.password, "pw");
}

#[test]
fn lockfile_with_empty_password_gives_empty_password() {
    let c = parse_lockfile("LeagueClient:1:8080:").unwrap();
    assert_eq!(c.port, 8080);
    assert_eq!(c.password, "");
}

#[test]
fn lockfile_with_too_few_fields_is_rejected() {
    assert!(parse_lockfile("").is_none());
    assert!(parse_lockfile("LeagueClient:1").is_none());
    assert!(parse_lockfile("LeagueClient:1:8080").is_none());
}

#[test]
fn lockfile_with_bad_port_is_rejected() {
    assert!(parse_lockfile("LeagueClient:1:65536:pw").is_none());
    assert!(parse_lockfile("LeagueClient:1:-1:pw").is_none());
    assert!(parse_lockfile("LeagueClient:1::pw").is_none());
    assert!(parse_lockfile("LeagueClient:1:80a:pw").is_none());
    assert!(parse_lockfile("LeagueClient:1: 80:pw").is_none());
}

#[test]
fn lockfile_port_accepts_plus_sign() {
    let c = parse_lockfile("LeagueClient:1:+443:pw").unwrap();
    assert_eq!(c.port, 443);
}

#[test]
fn command_line_yields_port_and_token() {
    let out = "CommandLine\r\n\"C:/Riot Games/League of Legends/LeagueClientUx.exe\" \"--riotclient-auth-token=abc\" \"--app-port=61234\" \"--remoting-auth-token=Zx_9-y\" \"--locale=en_US\"\r\n";
    let c = credentials_from_command_line(out).unwrap();
    assert_eq!(c.port, 61234);
    assert_eq!(c.password, "Zx_9-y");
}

#[test]
fn command_line_without_token_or_port_gives_nothing() {
    assert!(credentials_from_command_line("--app-port=61234").is_none());
    assert!(credentials_from_command_line("--remoting-auth-token=abc").is_none());
    assert!(credentials_from_command_line("").is_none());
}

#[test]
fn command_line_port_out_of_range_gives_nothing() {
    assert!(credentials_from_command_line("--app-port=70000 --remoting-auth-token=abc").is_none());
}

#[test]
fn captures_are_combined() {
    let c = credentials_from_captures(Some("443"), Some("tok")).unwrap();
    assert_eq!(c.port, 443);
    assert_eq!(c.password, "tok");
    assert!(credentials_from_captures(Some("x"), Some("tok")).is_none());
    assert!(credentials_from_captures(None, Some("tok")).is_none());
    assert!(credentials_from_captures(Some("443"), None).is_none());
}

#[test]
fn discovery_prefers_the_process() {
    let out = "--app-port=1111 --remoting-auth-token=fromprocess";
    let c = discover_credentials(Some(out), Some("LeagueClient:1:2222:fromlockfile")).unwrap();
    assert_eq!(c.port, 1111);
    assert_eq!(c.password, "fromprocess");
}

#[test]
fn discovery_falls_back_to_the_lockfile() {
    let c = discover_credentials(Some("no client here"), Some("LeagueClient:1:2222:fromlockfile")).unwrap();
    assert_eq!(c.port, 2222);
    assert_eq!(c.password, "fromlockfile");
    let c = discover_credentials(None, Some("LeagueClient:1:2222:fromlockfile")).unwrap();
    assert_eq!(c.port, 2222);
    assert!(discover_credentials(None, None).is_none());
    assert!(discover_credentials(Some("nothing"), None).is_none());
}

#[test]
fn url_names_the_port_and_path() {
    assert_eq!(lcu_url(&creds(54321, "x"), "/lol-summoner/v1/current-summoner"), "https://127.0.0.1:54321/lol-summoner/v1/current-summoner");
    assert_eq!(lcu_url(&creds(0, "x"), ""), "https://127.0.0.1:0");
}

#[test]
fn authorization_is_basic_base64_of_riot_login() {
    assert_eq!(lcu_authorization(&creds(1, "abc")), "Basic cmlvdDphYmM=");
    assert_eq!(lcu_authorization(&creds(1, "pässwörd")), "Basic cmlvdDpww6Rzc3fDtnJk");
    assert_eq!(basic_authorization("xyz"), "Basic xyz");
}

#[test]
fn success_statuses() {
    assert!(is_success_status(200));
    assert!(is_success_status(299));
    assert!(!is_success_status(199));
    assert!(!is_success_status(300));
    assert!(!is_success_status(404));
}

#[test]
fn discovery_step_reads_the_lockfile_only_without_process_credentials() {
    match discovery_from_process(Some("--app-port=1111 --remoting-auth-token=t")) {
        DiscoveryStep::Found(c) => assert_eq!((c.port, c.password.as_str()), (1111, "t")),
        DiscoveryStep::ReadLockfile => panic!("expected credentials"),
    }
    assert!(matches!(discovery_from_process(Some("nothing")), DiscoveryStep::ReadLockfile));
    assert!(matches!(discovery_from_process(None), DiscoveryStep::ReadLockfile));
}
