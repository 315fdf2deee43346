//! Whose lists are synced: the options of a run, and the accounts that there
//! are.
use vstd::prelude::*;

use crate::outside;
use crate::run::Service;
use crate::seqs;
use crate::text;

verus! {

// ── Options ───────────────────────────────────────────────────────────────

/// What a run was asked for.
#[derive(Debug, PartialEq, Eq)]
pub struct Options {
    /// Only say what would be done.
    pub dry_run: bool,
    /// Delete whatever is to be deleted, however much it is.
    pub force_deletes: bool,
    /// The server that was asked for, in lower case.
    pub backend: Option<String>,
}

/// The word that follows the first `flag`.
pub open spec fn word_after(args: Seq<Seq<char>>, flag: Seq<char>) -> Option<Seq<char>>
    decreases args.len(),
{
    if args.len() == 0 {
        None
    } else if args[0] == flag {
        if args.len() > 1 {
            Some(args[1])
        } else {
            None
        }
    } else {
        word_after(args.skip(1), flag)
    }
}

/// What a run was asked for, by its arguments.
pub fn parse_args(args: &[String]) -> (r: Options)
    ensures
        r.dry_run == args.deep_view().contains("--dry-run"@),
        r.force_deletes == args.deep_view().contains("--force-deletes"@),
        r.backend.deep_view() == match word_after(args.deep_view(), "--backend"@) {
            Some(w) => Some(text::ascii_lower(w)),
            None => None,
        },
{
    let dry_run = has_word(args, "--dry-run");
    let force_deletes = has_word(args, "--force-deletes");
    let ghost all = args.deep_view();
    assert(all.skip(0) =~= all);
    let n: usize = args.len();
    let mut i: usize = 0;
    let mut backend: Option<String> = None;
    let mut found = false;
    while i < n && !found
        invariant
            n == args@.len(),
            i <= n,
            all == args.deep_view(),
            !found ==> backend is None && word_after(all, "--backend"@) == word_after(
                all.skip(i as int),
                "--backend"@,
            ),
            found ==> backend.deep_view() == match word_after(all, "--backend"@) {
                Some(w) => Some(text::ascii_lower(w)),
                None => None,
            },
        decreases n - i,
    {
        assert(all.skip(i as int).skip(1) =~= all.skip(i + 1));
        assert(all.skip(i as int)[0] == args@[i as int]@);
        if text::same_str(args[i].as_str(), "--backend") {
            found = true;
            if i + 1 < n {
                assert(all.skip(i as int)[1] == args@[i + 1]@);
                let w = text::chars_of(args[i + 1].as_str());
                let low = text::to_ascii_lower(w.as_slice());
                backend = Some(text::string_of(low.as_slice()));
            }
        }
        i = i + 1;
    }
    Options { dry_run, force_deletes, backend }
}

/// Whether a word is among the arguments.
fn has_word(args: &[String], word: &str) -> (r: bool)
    ensures
        r == args.deep_view().contains(word@),
{
    let ghost all = args.deep_view();
    for i in 0..args.len()
        invariant
            all == args.deep_view(),
            forall|j: int| 0 <= j < i ==> #[trigger] all[j] != word@,
    {
        assert(all[i as int] == args@[i as int]@);
        if text::same_str(args[i].as_str(), word) {
            return true;
        }
    }
    false
}

// ── iCloud ────────────────────────────────────────────────────────────────

/// A mail account as it is kept.
pub struct AccountOnDisk {
    pub email: String,
    /// The mail server, with a port behind a colon.
    pub imap: String,
    /// Empty where it is in the keyring.
    pub password: String,
}

/// A kept account as plain values.
pub struct AccountOnDiskView {
    pub email: Seq<char>,
    pub imap: Seq<char>,
    pub password: Seq<char>,
}

impl DeepView for AccountOnDisk {
    type V = AccountOnDiskView;

    open spec fn deep_view(&self) -> AccountOnDiskView {
        AccountOnDiskView { email: self.email@, imap: self.imap@, password: self.password@ }
    }
}

/// An account to sync with iCloud.
pub struct Account {
    pub email: String,
    pub password: String,
}

/// An account as plain values.
pub struct AccountView {
    pub email: Seq<char>,
    pub password: Seq<char>,
}

impl DeepView for Account {
    type V = AccountView;

    open spec fn deep_view(&self) -> AccountView {
        AccountView { email: self.email@, password: self.password@ }
    }
}

impl Clone for Account {
    fn clone(&self) -> (r: Account)
        ensures
            r.deep_view() == self.deep_view(),
    {
        Account { email: self.email.clone(), password: self.password.clone() }
    }
}

/// An account with iCloud, by its mail server or by its address.
pub open spec fn with_icloud(acc: AccountOnDiskView) -> bool {
    ||| text::ends(text::before(acc.imap, ":"@), ".mail.me.com"@)
    ||| text::ends(acc.email, "@icloud.com"@)
    ||| text::ends(acc.email, "@me.com"@)
    ||| text::ends(acc.email, "@mac.com"@)
}

/// The account to sync with, given what the keyring has as its password. An
/// account without any password is passed over.
pub open spec fn icloud_account_of(
    acc: AccountOnDiskView,
    secret: Option<Seq<char>>,
) -> Option<AccountView> {
    if !with_icloud(acc) {
        None
    } else if acc.password.len() > 0 {
        Some(AccountView { email: acc.email, password: acc.password })
    } else {
        match secret {
            Some(password) => Some(AccountView { email: acc.email, password }),
            None => None,
        }
    }
}

/// Whether a text ends with another.
fn ends_with(s: &str, tail: &str) -> (r: bool)
    ensures
        r == text::ends(s@, tail@),
{
    text::ends_with(text::chars_of(s).as_slice(), text::chars_of(tail).as_slice())
}

/// Whether an account is one with iCloud.
pub fn is_icloud(acc: &AccountOnDisk) -> (r: bool)
    ensures
        r == with_icloud(acc.deep_view()),
{
    let imap = text::chars_of(acc.imap.as_str());
    let colon = text::chars_of(":");
    let host = text::up_to(imap.as_slice(), colon.as_slice());
    let tail = text::chars_of(".mail.me.com");
    let email = acc.email.as_str();
    text::ends_with(host, tail.as_slice()) || ends_with(email, "@icloud.com") || ends_with(
        email,
        "@me.com",
    ) || ends_with(email, "@mac.com")
}

/// Whether the keyring has to be asked for an account's password.
pub fn needs_secret(acc: &AccountOnDisk) -> (r: bool)
    ensures
        r == (with_icloud(acc.deep_view()) && acc.password@.len() == 0),
{
    is_icloud(acc) && acc.password.as_str().is_empty()
}

/// The account to sync with, given what the keyring has as its password.
pub fn icloud_account(acc: &AccountOnDisk, secret: &Option<String>) -> (r: Option<Account>)
    ensures
        r.deep_view() == icloud_account_of(acc.deep_view(), secret.deep_view()),
{
    if !is_icloud(acc) {
        return None;
    }
    if !acc.password.as_str().is_empty() {
        return Some(Account { email: acc.email.clone(), password: acc.password.clone() });
    }
    match secret {
        Some(password) => Some(Account { email: acc.email.clone(), password: password.clone() }),
        None => None,
    }
}

/// The accounts to sync with iCloud. Each kept account comes with what the
/// keyring has as its password.
pub fn icloud_accounts(on_disk: &[(AccountOnDisk, Option<String>)]) -> (r: Vec<Account>)
    ensures
        r.deep_view() == on_disk.deep_view().filter_map(
            |a: (AccountOnDiskView, Option<Seq<char>>)| icloud_account_of(a.0, a.1),
        ),
{
    let ghost all = on_disk.deep_view();
    let ghost f = |a: (AccountOnDiskView, Option<Seq<char>>)| icloud_account_of(a.0, a.1);
    let mut out: Vec<Account> = Vec::new();
    for i in 0..on_disk.len()
        invariant
            all == on_disk.deep_view(),
            f == (|a: (AccountOnDiskView, Option<Seq<char>>)| icloud_account_of(a.0, a.1)),
            out.deep_view() == all.take(i as int).filter_map(f),
    {
        let ghost had = out.deep_view();
        proof {
            seqs::lemma_filter_map_take(all, f, i as int);
            assert(all[i as int] == on_disk@[i as int].deep_view());
        }
        if let Some(acc) = icloud_account(&on_disk[i].0, &on_disk[i].1) {
            let ghost av = acc.deep_view();
            out.push(acc);
            assert(out.deep_view() =~= had.push(av));
        }
    }
    assert(all.take(all.len() as int) =~= all);
    out
}

// ── Google ────────────────────────────────────────────────────────────────

/// What a Google sign-in keeps of an account.
pub struct OAuthOnDisk {
    pub email: String,
    pub is_oauth: bool,
    pub refresh_token: Option<String>,
    pub client_id: Option<String>,
    pub client_secret: Option<String>,
}

/// A kept sign-in as plain values.
pub struct OAuthOnDiskView {
    pub email: Seq<char>,
    pub is_oauth: bool,
    pub refresh_token: Option<Seq<char>>,
    pub client_id: Option<Seq<char>>,
    pub client_secret: Option<Seq<char>>,
}

impl DeepView for OAuthOnDisk {
    type V = OAuthOnDiskView;

    open spec fn deep_view(&self) -> OAuthOnDiskView {
        OAuthOnDiskView {
            email: self.email@,
            is_oauth: self.is_oauth,
            refresh_token: self.refresh_token.deep_view(),
            client_id: self.client_id.deep_view(),
            client_secret: self.client_secret.deep_view(),
        }
    }
}

/// The credentials that an account without its own falls back to.
pub struct GoogleClientConfig {
    pub client_id: String,
    pub client_secret: String,
}

/// An account to sync with Google.
pub struct GoogleAccount {
    pub email: String,
    pub refresh_token: String,
    pub client_id: String,
    pub client_secret: String,
}

/// An account as plain values.
pub struct GoogleAccountView {
    pub email: Seq<char>,
    pub refresh_token: Seq<char>,
    pub client_id: Seq<char>,
    pub client_secret: Seq<char>,
}

impl DeepView for GoogleAccount {
    type V = GoogleAccountView;

    open spec fn deep_view(&self) -> GoogleAccountView {
        GoogleAccountView {
            email: self.email@,
            refresh_token: self.refresh_token@,
            client_id: self.client_id@,
            client_secret: self.client_secret@,
        }
    }
}

impl Clone for GoogleAccount {
    fn clone(&self) -> (r: GoogleAccount)
        ensures
            r.deep_view() == self.deep_view(),
    {
        GoogleAccount {
            email: self.email.clone(),
            refresh_token: self.refresh_token.clone(),
            client_id: self.client_id.clone(),
            client_secret: self.client_secret.clone(),
        }
    }
}

/// A text that is there and not empty, or else another.
pub open spec fn or_else(t: Option<Seq<char>>, other: Seq<char>) -> Seq<char> {
    match t {
        Some(s) => if s.len() > 0 {
            s
        } else {
            other
        },
        None => other,
    }
}

/// The account to sync with, for a sign-in with a refresh token.
pub open spec fn google_account_of(
    acc: OAuthOnDiskView,
    client_id: Seq<char>,
    client_secret: Seq<char>,
) -> Option<GoogleAccountView> {
    if acc.is_oauth && or_else(acc.refresh_token, Seq::empty()).len() > 0 {
        Some(
            GoogleAccountView {
                email: acc.email,
                refresh_token: acc.refresh_token->0,
                client_id: or_else(acc.client_id, client_id),
                client_secret: or_else(acc.client_secret, client_secret),
            },
        )
    } else {
        None
    }
}

/// A text that is there and not empty, or else another.
fn text_or(t: &Option<String>, other: &str) -> (r: String)
    ensures
        r@ == or_else(t.deep_view(), other@),
{
    match t {
        Some(s) => if s.as_str().is_empty() {
            other.to_string()
        } else {
            s.clone()
        },
        None => other.to_string(),
    }
}

/// The account to sync with, for a sign-in with a refresh token.
pub fn google_account(acc: &OAuthOnDisk, template: &GoogleClientConfig) -> (r: Option<
    GoogleAccount,
>)
    ensures
        r.deep_view() == google_account_of(
            acc.deep_view(),
            template.client_id@,
            template.client_secret@,
        ),
{
    let token = text_or(&acc.refresh_token, "");
    proof {
        reveal_strlit("");
        assert(""@ =~= Seq::empty());
    }
    if !acc.is_oauth || token.as_str().is_empty() {
        return None;
    }
    Some(
        GoogleAccount {
            email: acc.email.clone(),
            refresh_token: token,
            client_id: text_or(&acc.client_id, template.client_id.as_str()),
            client_secret: text_or(&acc.client_secret, template.client_secret.as_str()),
        },
    )
}

/// The accounts to sync with Google.
pub fn google_accounts(on_disk: &[OAuthOnDisk], template: &GoogleClientConfig) -> (r: Vec<
    GoogleAccount,
>)
    ensures
        r.deep_view() == on_disk.deep_view().filter_map(
            |a: OAuthOnDiskView|
                google_account_of(a, template.client_id@, template.client_secret@),
        ),
{
    let ghost all = on_disk.deep_view();
    let ghost f = |a: OAuthOnDiskView|
        google_account_of(a, template.client_id@, template.client_secret@);
    let mut out: Vec<GoogleAccount> = Vec::new();
    for i in 0..on_disk.len()
        invariant
            all == on_disk.deep_view(),
            f == (|a: OAuthOnDiskView|
                google_account_of(a, template.client_id@, template.client_secret@)),
            out.deep_view() == all.take(i as int).filter_map(f),
    {
        let ghost had = out.deep_view();
        proof {
            seqs::lemma_filter_map_take(all, f, i as int);
            assert(all[i as int] == on_disk@[i as int].deep_view());
        }
        if let Some(acc) = google_account(&on_disk[i], template) {
            let ghost av = acc.deep_view();
            out.push(acc);
            assert(out.deep_view() =~= had.push(av));
        }
    }
    assert(all.take(all.len() as int) =~= all);
    out
}

// ── The choice ────────────────────────────────────────────────────────────

/// Whom a run syncs with.
pub enum Backend {
    ICloud(Account),
    Google(GoogleAccount),
}

/// Whom a run syncs with, as plain values.
pub enum BackendView {
    ICloud(AccountView),
    Google(GoogleAccountView),
}

impl DeepView for Backend {
    type V = BackendView;

    open spec fn deep_view(&self) -> BackendView {
        match self {
            Backend::ICloud(acc) => BackendView::ICloud(acc.deep_view()),
            Backend::Google(acc) => BackendView::Google(acc.deep_view()),
        }
    }
}

impl BackendView {
    /// The address of the account.
    pub open spec fn email(self) -> Seq<char> {
        match self {
            BackendView::ICloud(acc) => acc.email,
            BackendView::Google(acc) => acc.email,
        }
    }

    /// The server.
    pub open spec fn service(self) -> Service {
        match self {
            BackendView::ICloud(acc) => Service::ICloud,
            BackendView::Google(acc) => Service::Google,
        }
    }
}

impl Backend {
    /// The address of the account.
    pub fn email(&self) -> (r: &str)
        ensures
            r@ == self.deep_view().email(),
    {
        match self {
            Backend::ICloud(acc) => acc.email.as_str(),
            Backend::Google(acc) => acc.email.as_str(),
        }
    }

    /// The server.
    pub fn service(&self) -> (r: Service)
        ensures
            r == self.deep_view().service(),
    {
        match self {
            Backend::ICloud(_) => Service::ICloud,
            Backend::Google(_) => Service::Google,
        }
    }
}

/// The accounts with iCloud as they were read, or why they could not be.
pub type ICloudRead = Result<Vec<Account>, String>;

/// The accounts with Google as they were read, or why they could not be.
pub type GoogleRead = Result<Vec<GoogleAccount>, String>;

/// What was read of iCloud's accounts, as plain values.
pub open spec fn icloud_read(r: ICloudRead) -> Result<Seq<AccountView>, Seq<char>> {
    match r {
        Ok(v) => Ok(v.deep_view()),
        Err(e) => Err(e@),
    }
}

/// What was read of Google's accounts, as plain values.
pub open spec fn google_read(r: GoogleRead) -> Result<Seq<GoogleAccountView>, Seq<char>> {
    match r {
        Ok(v) => Ok(v.deep_view()),
        Err(e) => Err(e@),
    }
}

/// The first of iCloud's accounts, if there is one.
pub open spec fn first_icloud(read: Result<Seq<AccountView>, Seq<char>>) -> Result<
    Option<BackendView>,
    Seq<char>,
> {
    match read {
        Ok(v) => Ok(
            if v.len() > 0 {
                Some(BackendView::ICloud(v[0]))
            } else {
                None
            },
        ),
        Err(e) => Err(e),
    }
}

/// The first of Google's accounts, if there is one.
pub open spec fn first_google(read: Result<Seq<GoogleAccountView>, Seq<char>>) -> Result<
    Option<BackendView>,
    Seq<char>,
> {
    match read {
        Ok(v) => Ok(
            if v.len() > 0 {
                Some(BackendView::Google(v[0]))
            } else {
                None
            },
        ),
        Err(e) => Err(e),
    }
}

/// Whom a run syncs with: the first account with the server that was asked for,
/// or else the first with Google, or else the first with iCloud.
pub open spec fn chosen(
    wanted: Option<Seq<char>>,
    google: Result<Seq<GoogleAccountView>, Seq<char>>,
    icloud: Result<Seq<AccountView>, Seq<char>>,
) -> Result<Option<BackendView>, Seq<char>> {
    match wanted {
        Some(w) => if w == "icloud"@ {
            first_icloud(icloud)
        } else if w == "google"@ {
            first_google(google)
        } else {
            Err("unknown --backend "@ + outside::quoted(w) + " (google|icloud)"@)
        },
        None => match first_google(google) {
            Ok(None) => first_icloud(icloud),
            found => found,
        },
    }
}

/// What a choice comes to, given what has been read of the accounts.
pub enum Choice {
    /// The accounts with a server have to be read first.
    Read(Service),
    /// This account, or none at all.
    Found(Option<Backend>),
    /// None could be chosen.
    Failed(String),
}

/// What a choice comes to, as plain values.
pub enum ChoiceView {
    Read(Service),
    Found(Option<BackendView>),
    Failed(Seq<char>),
}

impl DeepView for Choice {
    type V = ChoiceView;

    open spec fn deep_view(&self) -> ChoiceView {
        match self {
            Choice::Read(service) => ChoiceView::Read(*service),
            Choice::Found(backend) => ChoiceView::Found(backend.deep_view()),
            Choice::Failed(e) => ChoiceView::Failed(e@),
        }
    }
}

/// A choice that has been made.
pub open spec fn made(r: Result<Option<BackendView>, Seq<char>>) -> ChoiceView {
    match r {
        Ok(backend) => ChoiceView::Found(backend),
        Err(e) => ChoiceView::Failed(e),
    }
}

/// The choice among iCloud's accounts, once they have been read.
pub open spec fn icloud_choice(
    icloud: Option<Result<Seq<AccountView>, Seq<char>>>,
) -> ChoiceView {
    match icloud {
        Some(read) => made(first_icloud(read)),
        None => ChoiceView::Read(Service::ICloud),
    }
}

/// The choice among Google's accounts, once they have been read.
pub open spec fn google_choice(
    google: Option<Result<Seq<GoogleAccountView>, Seq<char>>>,
) -> ChoiceView {
    match google {
        Some(read) => made(first_google(read)),
        None => ChoiceView::Read(Service::Google),
    }
}

/// What a choice comes to. The accounts with a server are read only where the
/// choice depends on them: those with iCloud not where there is one with
/// Google.
pub open spec fn choice_of(
    wanted: Option<Seq<char>>,
    google: Option<Result<Seq<GoogleAccountView>, Seq<char>>>,
    icloud: Option<Result<Seq<AccountView>, Seq<char>>>,
) -> ChoiceView {
    match wanted {
        Some(w) => if w == "icloud"@ {
            icloud_choice(icloud)
        } else if w == "google"@ {
            google_choice(google)
        } else {
            ChoiceView::Failed("unknown --backend "@ + outside::quoted(w) + " (google|icloud)"@)
        },
        None => match google_choice(google) {
            ChoiceView::Found(None) => icloud_choice(icloud),
            choice => choice,
        },
    }
}

/// The choice among iCloud's accounts, once they have been read.
fn choose_icloud(icloud: &Option<ICloudRead>) -> (r: Choice)
    ensures
        r.deep_view() == icloud_choice(
            match *icloud {
                Some(read) => Some(icloud_read(read)),
                None => None,
            },
        ),
{
    match icloud {
        None => Choice::Read(Service::ICloud),
        Some(Err(e)) => Choice::Failed(e.clone()),
        Some(Ok(v)) => if v.len() > 0 {
            assert(v.deep_view()[0] == v@[0].deep_view());
            Choice::Found(Some(Backend::ICloud(v[0].clone())))
        } else {
            Choice::Found(None)
        },
    }
}

/// The choice among Google's accounts, once they have been read.
fn choose_google(google: &Option<GoogleRead>) -> (r: Choice)
    ensures
        r.deep_view() == google_choice(
            match *google {
                Some(read) => Some(google_read(read)),
                None => None,
            },
        ),
{
    match google {
        None => Choice::Read(Service::Google),
        Some(Err(e)) => Choice::Failed(e.clone()),
        Some(Ok(v)) => if v.len() > 0 {
            assert(v.deep_view()[0] == v@[0].deep_view());
            Choice::Found(Some(Backend::Google(v[0].clone())))
        } else {
            Choice::Found(None)
        },
    }
}

/// Whom a run syncs with: the first account with the server that was asked for,
/// or else with Google, or else with iCloud. `google` and `icloud` are what was
/// read of the accounts, where they have been read; what has to be read first
/// is asked for.
pub fn choose_backend(
    wanted: Option<&str>,
    google: &Option<GoogleRead>,
    icloud: &Option<ICloudRead>,
) -> (r: Choice)
    ensures
        r.deep_view() == choice_of(
            wanted.deep_view(),
            match *google {
                Some(read) => Some(google_read(read)),
                None => None,
            },
            match *icloud {
                Some(read) => Some(icloud_read(read)),
                None => None,
            },
        ),
{
    match wanted {
        Some(w) => {
            if text::same_str(w, "icloud") {
                choose_icloud(icloud)
            } else if text::same_str(w, "google") {
                choose_google(google)
            } else {
                let mut s = "unknown --backend ".to_string();
                s.append(outside::quote(w).as_str());
                s.append(" (google|icloud)");
                Choice::Failed(s)
            }
        },
        None => match choose_google(google) {
            Choice::Found(None) => choose_icloud(icloud),
            choice => choice,
        },
    }
}

/// However much has been read, a choice that is made is the one that all
/// accounts together give, and what is asked for has not been read: after at
/// most two reads the choice is made.
pub proof fn law_choice_is_that_of_all(
    wanted: Option<Seq<char>>,
    google: Result<Seq<GoogleAccountView>, Seq<char>>,
    icloud: Result<Seq<AccountView>, Seq<char>>,
    google_known: bool,
    icloud_known: bool,
)
    ensures
        ({
            let g = if google_known {
                Some(google)
            } else {
                None
            };
            let i = if icloud_known {
                Some(icloud)
            } else {
                None
            };
            match choice_of(wanted, g, i) {
                ChoiceView::Read(Service::Google) => !google_known,
                ChoiceView::Read(Service::ICloud) => !icloud_known,
                done => done == made(chosen(wanted, google, icloud)),
            }
        }),
{
}

/// The accounts with iCloud are not read where there is one with Google, or
/// where Google was asked for, and those with Google not where iCloud was asked
/// for.
pub proof fn law_only_what_is_needed_is_read(
    wanted: Option<Seq<char>>,
    google: Option<Result<Seq<GoogleAccountView>, Seq<char>>>,
    icloud: Option<Result<Seq<AccountView>, Seq<char>>>,
)
    ensures
        choice_of(wanted, google, icloud) == ChoiceView::Read(Service::Google) ==> wanted
            != Some("icloud"@),
        choice_of(wanted, google, icloud) == ChoiceView::Read(Service::ICloud) ==> wanted
            == Some("icloud"@) || (wanted is None && google == Some(
            Ok::<Seq<GoogleAccountView>, Seq<char>>(Seq::empty()),
        )),
{
    if let Some(Ok(v)) = google {
        if v.len() == 0 {
            assert(v =~= Seq::empty());
        }
    }
}

} // verus!
