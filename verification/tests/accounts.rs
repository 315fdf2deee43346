use cce_list::accounts::{
    choose_backend, google_accounts, icloud_accounts, is_icloud, needs_secret, parse_args, Account,
    AccountOnDisk, Backend, Choice, GoogleAccount, GoogleClientConfig, GoogleRead, ICloudRead,
    OAuthOnDisk, Options,
};
use cce_list::run::Service;

fn args(words: &[&str]) -> Vec<String> {
    words.iter().map(|w| w.to_string()).collect()
}

#[test]
fn options_are_read() {
    assert_eq!(
        parse_args(&args(&["cce-list-sync"])),
        Options { dry_run: false, force_deletes: false, backend: None }
    );
    assert_eq!(
        parse_args(&args(&["s", "--backend", "ICloud", "--dry-run", "--force-deletes"])),
        Options { dry_run: true, force_deletes: true, backend: Some("icloud".into()) }
    );
    // The first one counts, whatever follows it.
    assert_eq!(parse_args(&args(&["s", "--backend"])).backend, None);
    assert_eq!(
        parse_args(&args(&["s", "--backend", "--backend", "google"])).backend.as_deref(),
        Some("--backend")
    );
}

fn with_google(emails: &[&str]) -> Option<GoogleRead> {
    let account = |e: &&str| GoogleAccount {
        email: e.to_string(),
        refresh_token: "r".into(),
        client_id: "c".into(),
        client_secret: "s".into(),
    };
    Some(Ok(emails.iter().map(account).collect()))
}

fn with_icloud(emails: &[&str]) -> Option<ICloudRead> {
    let account = |e: &&str| Account { email: e.to_string(), password: "p".into() };
    Some(Ok(emails.iter().map(account).collect()))
}

/// What a choice comes to, in words.
fn choice(wanted: Option<&str>, google: &Option<GoogleRead>, icloud: &Option<ICloudRead>) -> String {
    match choose_backend(wanted, google, icloud) {
        Choice::Read(service) => format!("read {service:?}"),
        Choice::Found(None) => "none".to_string(),
        Choice::Found(Some(b)) => {
            let kind = match b {
                Backend::Google(_) => Service::Google,
                Backend::ICloud(_) => Service::ICloud,
            };
            assert_eq!(b.service(), kind);
            format!("{:?} {}", b.service(), b.email())
        }
        Choice::Failed(e) => format!("failed: {e}"),
    }
}

#[test]
fn the_first_account_of_the_first_server_is_taken() {
    assert_eq!(choice(None, &None, &None), "read Google");
    assert_eq!(choice(None, &with_google(&["a", "b"]), &None), "Google a");
    assert_eq!(choice(None, &with_google(&[]), &None), "read ICloud");
    assert_eq!(choice(None, &with_google(&[]), &with_icloud(&["c", "d"])), "ICloud c");
    assert_eq!(choice(None, &with_google(&[]), &with_icloud(&[])), "none");
    assert_eq!(choice(None, &Some(Err("no file".into())), &None), "failed: no file");
    let bad = Some(Err("no ring".into()));
    assert_eq!(choice(None, &with_google(&[]), &bad), "failed: no ring");
    assert_eq!(choice(None, &with_google(&["a"]), &bad), "Google a");
}

#[test]
fn the_server_that_was_asked_for_is_taken() {
    assert_eq!(choice(Some("google"), &None, &None), "read Google");
    assert_eq!(choice(Some("google"), &with_google(&["a"]), &None), "Google a");
    assert_eq!(choice(Some("google"), &with_google(&[]), &with_icloud(&["c"])), "none");
    assert_eq!(choice(Some("icloud"), &with_google(&["a"]), &None), "read ICloud");
    assert_eq!(choice(Some("icloud"), &None, &with_icloud(&["c"])), "ICloud c");
    assert_eq!(choice(Some("icloud"), &with_google(&["a"]), &with_icloud(&[])), "none");
    assert_eq!(
        choice(Some("a\"b\n"), &None, &None),
        "failed: unknown --backend \"a\\\"b\\n\" (google|icloud)"
    );
}

fn mail(email: &str, imap: &str, password: &str) -> AccountOnDisk {
    AccountOnDisk { email: email.into(), imap: imap.into(), password: password.into() }
}

#[test]
fn icloud_accounts_are_told_by_server_or_address() {
    assert!(is_icloud(&mail("a@x.org", "imap.mail.me.com:993", "")));
    assert!(is_icloud(&mail("a@icloud.com", "", "")));
    assert!(is_icloud(&mail("a@me.com", "", "")));
    assert!(is_icloud(&mail("a@mac.com", "", "")));
    assert!(!is_icloud(&mail("a@x.org", "imap.x.org:p.mail.me.com", "")));
    assert!(!is_icloud(&mail("a@gmail.com", "imap.gmail.com:993", "")));
    assert!(needs_secret(&mail("a@me.com", "", "")));
    assert!(!needs_secret(&mail("a@me.com", "", "p")));
    assert!(!needs_secret(&mail("a@x.org", "", "")));

    let on_disk = vec![
        (mail("a@me.com", "", "own"), Some("ring".to_string())),
        (mail("b@me.com", "", ""), Some("ring".to_string())),
        (mail("c@me.com", "", ""), None),
        (mail("d@x.org", "", "p"), None),
    ];
    let got: Vec<(String, String)> =
        icloud_accounts(&on_disk).into_iter().map(|a| (a.email, a.password)).collect();
    assert_eq!(
        got,
        vec![
            ("a@me.com".to_string(), "own".to_string()),
            ("b@me.com".to_string(), "ring".to_string()),
        ]
    );
}

#[test]
fn google_accounts_fall_back_to_the_template() {
    let acc = |email: &str, is_oauth: bool, token: Option<&str>, id: Option<&str>, secret: Option<&str>| {
        OAuthOnDisk {
            email: email.into(),
            is_oauth,
            refresh_token: token.map(String::from),
            client_id: id.map(String::from),
            client_secret: secret.map(String::from),
        }
    };
    let template = GoogleClientConfig { client_id: "tid".into(), client_secret: "tsec".into() };
    let on_disk = vec![
        acc("a", true, Some("t"), Some("i"), Some("s")),
        acc("b", true, Some("t"), Some(""), None),
        acc("c", false, Some("t"), None, None),
        acc("d", true, Some(""), None, None),
        acc("e", true, None, None, None),
    ];
    let got: Vec<[String; 4]> = google_accounts(&on_disk, &template)
        .into_iter()
        .map(|a| [a.email, a.refresh_token, a.client_id, a.client_secret])
        .collect();
    assert_eq!(got, vec![["a", "t", "i", "s"], ["b", "t", "tid", "tsec"]]);
}
