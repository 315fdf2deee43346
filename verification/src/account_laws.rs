//! Which accounts are synced with which server, and whom a run syncs with.
use vstd::prelude::*;

use crate::accounts;
use crate::accounts::{
    AccountOnDiskView, AccountView, BackendView, ChoiceView, GoogleAccountView, OAuthOnDiskView,
};
use crate::outside;
use crate::run::Service;
use crate::text;
use crate::text_laws;

verus! {

/// A flag's word is the one behind the first of that flag, where there is one.
pub proof fn law_word_of_flag(args: Seq<Seq<char>>, flag: Seq<char>, k: int)
    ensures
        0 <= k < args.len() - 1 && args[k] == flag && (forall|j: int|
            0 <= j < k ==> #[trigger] args[j] != flag) ==> accounts::word_after(args, flag)
            == Some(args[k + 1]),
        (forall|j: int| 0 <= j < args.len() - 1 ==> #[trigger] args[j] != flag)
            ==> accounts::word_after(args, flag) is None,
    decreases args.len(),
{
    if args.len() > 0 {
        let rest = args.skip(1);
        law_word_of_flag(rest, flag, k - 1);
        if args[0] != flag {
            if 0 <= k < args.len() - 1 && args[k] == flag && forall|j: int|
                0 <= j < k ==> #[trigger] args[j] != flag {
                assert(rest[k - 1] == args[k] && rest[k] == args[k + 1]);
                assert forall|j: int| 0 <= j < k - 1 implies #[trigger] rest[j] != flag by {
                    assert(args[j + 1] != flag);
                }
            }
            if forall|j: int| 0 <= j < args.len() - 1 ==> #[trigger] args[j] != flag {
                assert forall|j: int| 0 <= j < rest.len() - 1 implies #[trigger] rest[j]
                    != flag by {
                    assert(args[j + 1] != flag);
                }
            }
        } else if args.len() > 1 {
            if forall|j: int| 0 <= j < args.len() - 1 ==> #[trigger] args[j] != flag {
                assert(args[0] != flag);
            }
            if 0 <= k < args.len() - 1 && args[k] == flag && forall|j: int|
                0 <= j < k ==> #[trigger] args[j] != flag {
                if k > 0 {
                    assert(args[0] != flag);
                }
            }
        }
    }
}

/// A text ends with another.
pub open spec fn has_ending(s: Seq<char>, ending: Seq<char>) -> bool {
    exists|rest: Seq<char>| s == #[trigger] (rest + ending)
}

/// An account is with iCloud where its mail server, without its port, is one of
/// Apple's, or its address is at one of Apple's domains.
pub proof fn law_icloud_account(acc: AccountOnDiskView)
    ensures
        accounts::with_icloud(acc) <==> has_ending(
            text::before(acc.imap, ":"@),
            ".mail.me.com"@,
        ) || has_ending(acc.email, "@icloud.com"@) || has_ending(acc.email, "@me.com"@)
            || has_ending(acc.email, "@mac.com"@),
{
    text_laws::law_begins_and_ends(text::before(acc.imap, ":"@), ".mail.me.com"@);
    text_laws::law_begins_and_ends(acc.email, "@icloud.com"@);
    text_laws::law_begins_and_ends(acc.email, "@me.com"@);
    text_laws::law_begins_and_ends(acc.email, "@mac.com"@);
}

/// An account with iCloud is synced with the password that is kept, or else with
/// the one in the keyring, and not at all without one; no other account is.
pub proof fn law_icloud_password(acc: AccountOnDiskView, secret: Option<Seq<char>>)
    ensures
        ({
            let r = accounts::icloud_account_of(acc, secret);
            let kept = acc.password.len() > 0;
            &&& r is Some <==> accounts::with_icloud(acc) && (kept || secret is Some)
            &&& r is Some ==> r->0.email == acc.email
            &&& r is Some && kept ==> r->0.password == acc.password
            &&& r is Some && !kept ==> r->0.password == secret->0
        }),
{
}

/// A text that is there and is not empty.
pub open spec fn given(t: Option<Seq<char>>) -> bool {
    t is Some && t->0.len() > 0
}

/// An account is synced with Google exactly where it signs in by token and has
/// one; it takes the client's name and secret from the account where they are
/// there, and else the general ones.
pub proof fn law_google_account(
    acc: OAuthOnDiskView,
    client_id: Seq<char>,
    client_secret: Seq<char>,
)
    ensures
        ({
            let r = accounts::google_account_of(acc, client_id, client_secret);
            &&& r is Some <==> acc.is_oauth && given(acc.refresh_token)
            &&& r is Some ==> r->0.email == acc.email && r->0.refresh_token
                == acc.refresh_token->0
            &&& r is Some && given(acc.client_id) ==> r->0.client_id == acc.client_id->0
            &&& r is Some && !given(acc.client_id) ==> r->0.client_id == client_id
            &&& r is Some && given(acc.client_secret) ==> r->0.client_secret
                == acc.client_secret->0
            &&& r is Some && !given(acc.client_secret) ==> r->0.client_secret == client_secret
        }),
{
}

/// A run syncs with the first account of the server that was asked for, and with
/// none where it has none; one that is not known is an error, and so is one whose
/// accounts cannot be read.
pub proof fn law_asked_for(
    wanted: Seq<char>,
    google: Result<Seq<GoogleAccountView>, Seq<char>>,
    icloud: Result<Seq<AccountView>, Seq<char>>,
)
    ensures
        ({
            let r = accounts::chosen(Some(wanted), google, icloud);
            let named = wanted == "icloud"@ || wanted == "google"@;
            &&& !named ==> r == Err::<Option<BackendView>, Seq<char>>(
                "unknown --backend "@ + outside::quoted(wanted) + " (google|icloud)"@,
            )
            &&& wanted == "icloud"@ && icloud is Err ==> r is Err && r->Err_0 == icloud->Err_0
            &&& wanted == "icloud"@ && icloud is Ok && icloud->Ok_0.len() == 0 ==> r == Ok::<
                Option<BackendView>,
                Seq<char>,
            >(None)
            &&& wanted == "icloud"@ && icloud is Ok && icloud->Ok_0.len() > 0 ==> r == Ok::<
                Option<BackendView>,
                Seq<char>,
            >(Some(BackendView::ICloud(icloud->Ok_0[0])))
            &&& wanted == "google"@ && google is Err ==> r is Err && r->Err_0 == google->Err_0
            &&& wanted == "google"@ && google is Ok && google->Ok_0.len() == 0 ==> r == Ok::<
                Option<BackendView>,
                Seq<char>,
            >(None)
            &&& wanted == "google"@ && google is Ok && google->Ok_0.len() > 0 ==> r == Ok::<
                Option<BackendView>,
                Seq<char>,
            >(Some(BackendView::Google(google->Ok_0[0])))
        }),
{
    reveal_strlit("icloud");
    reveal_strlit("google");
    assert("icloud"@[0] == 'i');
    assert("google"@[0] == 'g');
}

/// Where nothing was asked for, a run syncs with the first account of Google, and
/// with the first of iCloud where Google has none.
pub proof fn law_not_asked_for(
    google: Result<Seq<GoogleAccountView>, Seq<char>>,
    icloud: Result<Seq<AccountView>, Seq<char>>,
)
    ensures
        ({
            let r = accounts::chosen(None, google, icloud);
            let none = google is Ok && google->Ok_0.len() == 0;
            &&& google is Err ==> r is Err && r->Err_0 == google->Err_0
            &&& google is Ok && google->Ok_0.len() > 0 ==> r == Ok::<
                Option<BackendView>,
                Seq<char>,
            >(Some(BackendView::Google(google->Ok_0[0])))
            &&& none && icloud is Err ==> r is Err && r->Err_0 == icloud->Err_0
            &&& none && icloud is Ok && icloud->Ok_0.len() > 0 ==> r == Ok::<
                Option<BackendView>,
                Seq<char>,
            >(Some(BackendView::ICloud(icloud->Ok_0[0])))
            &&& none && icloud is Ok && icloud->Ok_0.len() == 0 ==> r == Ok::<
                Option<BackendView>,
                Seq<char>,
            >(None)
        }),
{
}

/// Accounts are read only where the choice depends on them: once those that are
/// known decide it, it is made, and else the accounts of the next server are
/// asked for, Google's before iCloud's.
pub proof fn law_accounts_are_read_in_turn(
    wanted: Option<Seq<char>>,
    google: Option<Result<Seq<GoogleAccountView>, Seq<char>>>,
    icloud: Option<Result<Seq<AccountView>, Seq<char>>>,
)
    ensures
        ({
            let r = accounts::choice_of(wanted, google, icloud);
            let none = google is Some && google->0 is Ok && (google->0)->Ok_0.len() == 0;
            let to_icloud = wanted == Some("icloud"@) || (wanted is None && none);
            let to_google = wanted == Some("google"@) || (wanted is None && !none);
            &&& r == ChoiceView::Read(Service::ICloud) <==> to_icloud && icloud is None
            &&& r == ChoiceView::Read(Service::Google) <==> to_google && google is None
        }),
{
    reveal_strlit("icloud");
    reveal_strlit("google");
    assert("icloud"@[0] == 'i');
    assert("google"@[0] == 'g');
}

/// A backend's account gives its address, and tells its server.
pub proof fn law_backend(acc: AccountView, other: GoogleAccountView)
    ensures
        BackendView::ICloud(acc).email() == acc.email,
        BackendView::ICloud(acc).service() == Service::ICloud,
        BackendView::Google(other).email() == other.email,
        BackendView::Google(other).service() == Service::Google,
{
}

/// A choice is made once it is known: whom the run syncs with, or why it cannot.
pub proof fn law_choice_is_made(
    wanted: Option<Seq<char>>,
    google: Result<Seq<GoogleAccountView>, Seq<char>>,
    icloud: Result<Seq<AccountView>, Seq<char>>,
)
    ensures
        ({
            let r = accounts::choice_of(wanted, Some(google), Some(icloud));
            let all = accounts::chosen(wanted, google, icloud);
            &&& all is Ok ==> r == ChoiceView::Found(all->Ok_0)
            &&& all is Err ==> r == ChoiceView::Failed(all->Err_0)
        }),
{
    accounts::law_choice_is_that_of_all(wanted, google, icloud, true, true);
}

} // verus!
