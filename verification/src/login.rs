//! Logging in: the page where the user approves, the account that comes of it, and
//! where its token is kept.

use vstd::prelude::*;

use crate::text;

verus! {

/// Permission scopes requested at login.
pub const LOGIN_PERMISSIONS: [&'static str; 17] = [
    "read:account",
    "write:account",
    "read:drive",
    "write:drive",
    "read:favorites",
    "write:favorites",
    "read:following",
    "write:following",
    "read:mutes",
    "write:mutes",
    "read:notes",
    "write:notes",
    "read:notifications",
    "write:notifications",
    "read:reactions",
    "write:reactions",
    "write:votes",
];

/// The permission scopes as texts.
pub open spec fn permissions() -> Seq<Seq<char>> {
    LOGIN_PERMISSIONS@.map_values(|p: &'static str| p@)
}

/// The requested permission scopes with commas between them.
pub fn permission_list() -> (out: String)
    ensures
        out@ == text::joined(permissions(), ","@),
{
    let scopes: [&'static str; 17] = LOGIN_PERMISSIONS;
    let ghost all = permissions();
    let mut out: String = scopes[0].to_owned();
    let mut i: usize = 1;
    proof {
        assert(all.take(1) =~= seq![all[0]]);
        assert(text::joined(all.take(1), ","@) =~= all[0]);
    }
    while i < scopes.len()
        invariant
            scopes@ == LOGIN_PERMISSIONS@,
            all == permissions(),
            1 <= i <= scopes@.len(),
            out@ == text::joined(all.take(i as int), ","@),
        decreases scopes@.len() - i,
    {
        out.append(",");
        out.append(scopes[i]);
        proof {
            assert(all.take(i + 1) =~= all.take(i as int).push(all[i as int]));
            text::lemma_joined_push(all.take(i as int), ","@, all[i as int]);
        }
        i = i + 1;
    }
    proof {
        assert(all.take(i as int) =~= all);
    }
    out
}

/// The page of `host` where the user approves the session `session_id`.
pub open spec fn approval_url(host: Seq<char>, session_id: Seq<char>) -> Seq<char> {
    "https://"@ + host + "/miauth/"@ + session_id + "?name=notetui&permission="@ + text::joined(
        permissions(),
        ","@,
    )
}

/// The page of `host` where the user approves the session `session_id`.
pub fn auth_url(host: &str, session_id: &str) -> (url: String)
    ensures
        url@ == approval_url(host@, session_id@),
{
    let mut url: String = "https://".to_owned();
    url.append(host);
    url.append("/miauth/");
    url.append(session_id);
    url.append("?name=notetui&permission=");
    url.append(permission_list().as_str());
    url
}

/// A lower-case hexadecimal digit.
pub open spec fn is_hex(c: char) -> bool {
    '0' <= c <= '9' || 'a' <= c <= 'f'
}

/// The text form of a random (version 4) UUID: groups of 8, 4, 4, 4 and 12
/// lower-case hexadecimal digits with hyphens between them, of which the first of
/// the third group is `4` and the first of the fourth one of `8`, `9`, `a`, `b`.
pub open spec fn is_uuid_v4(s: Seq<char>) -> bool {
    &&& s.len() == 36
    &&& forall|i: int|
        0 <= i < 36 ==> if i == 8 || i == 13 || i == 18 || i == 23 {
            #[trigger] s[i] == '-'
        } else {
            is_hex(s[i])
        }
    &&& s[14] == '4'
    &&& s[19] == '8' || s[19] == '9' || s[19] == 'a' || s[19] == 'b'
}

/// `uuid::Uuid::new_v4().to_string()`: a random UUID in its hyphenated lower-case
/// form. Which one it is rests on chance; only its form is stated.
#[verifier::external_body]
fn new_id() -> (id: String)
    ensures
        is_uuid_v4(id@),
{
    uuid::Uuid::new_v4().to_string()
}

/// A login that waits for the user's approval.
#[derive(Debug)]
pub struct LoginRequest {
    pub session_id: String,
    pub url: String,
}

/// Starts a login at `host`: a fresh session, and the page where it is approved.
pub fn login_request(host: &str) -> (request: LoginRequest)
    ensures
        is_uuid_v4(request.session_id@),
        request.url@ == approval_url(host@, request.session_id@),
{
    let session_id: String = new_id();
    let url: String = auth_url(host, session_id.as_str());
    LoginRequest { session_id, url }
}

/// What the server tells of an approved session.
pub struct Auth {
    pub token: String,
    pub user_id: String,
    pub username: String,
    pub name: Option<String>,
    pub avatar_url: Option<String>,
}

/// A stored account.
pub struct Account {
    pub id: String,
    pub host: String,
    pub token: String,
    pub user_id: String,
    pub username: String,
    pub display_name: Option<String>,
    pub avatar_url: Option<String>,
    pub software: String,
}

/// `account` is that of the user of `auth` at `host`.
pub open spec fn is_account_of(account: Account, host: Seq<char>, auth: Auth) -> bool {
    &&& account.host@ == host
    &&& account.token@ == auth.token@
    &&& account.user_id@ == auth.user_id@
    &&& account.username@ == auth.username@
    &&& account.display_name == auth.name
    &&& account.avatar_url == auth.avatar_url
    &&& account.software@ == "misskey"@
}

/// The account `id` for the user of `auth` at `host`.
pub fn account_with_id(id: String, host: &str, auth: Auth) -> (account: Account)
    ensures
        account.id@ == id@,
        is_account_of(account, host@, auth),
{
    Account {
        id,
        host: host.to_owned(),
        token: auth.token,
        user_id: auth.user_id,
        username: auth.username,
        display_name: auth.name,
        avatar_url: auth.avatar_url,
        software: "misskey".to_owned(),
    }
}

/// A new account for the user of `auth` at `host`, with a fresh id.
pub fn new_account(host: &str, auth: Auth) -> (account: Account)
    ensures
        is_uuid_v4(account.id@),
        is_account_of(account, host@, auth),
{
    let id: String = new_id();
    account_with_id(id, host, auth)
}

/// What the user is told after logging in.
pub fn login_message(account: &Account, host: &str) -> (out: String)
    ensures
        out@ == "ログインしました: @"@ + account.username@ + "@"@ + host@,
{
    let mut out: String = "ログインしました: @".to_owned();
    out.append(account.username.as_str());
    out.append("@");
    out.append(host);
    out
}

/// The account that is used: the first of the stored ones.
pub fn first_account(accounts: Vec<Account>) -> (account: Option<Account>)
    ensures
        account == (if accounts@.len() == 0 {
            None
        } else {
            Some(accounts@[0])
        }),
{
    let mut accounts: Vec<Account> = accounts;
    if accounts.len() == 0 {
        None
    } else {
        Some(accounts.remove(0))
    }
}

/// What is left to do to keep the token of a saved account in the keychain.
#[derive(Clone, Copy, Debug, PartialEq, Eq, Structural)]
pub enum TokenStep {
    /// Store the token in the keychain.
    Store,
    /// Read it back from there.
    ReadBack,
    /// Clear the copy in the account store.
    ClearCopy,
    /// Nothing.
    Done,
}

/// The step behind `step`: the next one where it succeeded, none where it failed.
/// Reading back succeeds where a token was found; what comes of clearing the copy
/// does not matter.
pub fn next_token_step(step: TokenStep, succeeded: bool) -> (next: TokenStep)
    ensures
        next == token_step_after(step, succeeded),
{
    match step {
        TokenStep::Store => if succeeded {
            TokenStep::ReadBack
        } else {
            TokenStep::Done
        },
        TokenStep::ReadBack => if succeeded {
            TokenStep::ClearCopy
        } else {
            TokenStep::Done
        },
        TokenStep::ClearCopy => TokenStep::Done,
        TokenStep::Done => TokenStep::Done,
    }
}

/// The step behind `step`.
pub open spec fn token_step_after(step: TokenStep, succeeded: bool) -> TokenStep {
    match step {
        TokenStep::Store if succeeded => TokenStep::ReadBack,
        TokenStep::ReadBack if succeeded => TokenStep::ClearCopy,
        _ => TokenStep::Done,
    }
}

/// The step that is reached from the first one when the steps come out as
/// `outcomes` says.
pub open spec fn token_step_at(outcomes: Seq<bool>) -> TokenStep
    decreases outcomes.len(),
{
    if outcomes.len() == 0 {
        TokenStep::Store
    } else {
        token_step_after(token_step_at(outcomes.drop_last()), outcomes.last())
    }
}

/// The copy of the token in the account store is cleared only after the token was
/// stored in the keychain and read back from there.
pub proof fn law_copy_cleared_only_when_kept(outcomes: Seq<bool>)
    ensures
        token_step_at(outcomes) == TokenStep::ClearCopy <==> outcomes == seq![true, true],
        token_step_at(outcomes) == TokenStep::ReadBack <==> outcomes == seq![true],
        token_step_at(outcomes) == TokenStep::Store <==> outcomes == Seq::<bool>::empty(),
    decreases outcomes.len(),
{
    if outcomes.len() > 0 {
        let front = outcomes.drop_last();
        law_copy_cleared_only_when_kept(front);
        assert(outcomes =~= front.push(outcomes.last()));
        if outcomes.len() <= 2 {
            assert(outcomes =~= seq![true, true] <==> front =~= seq![true] && outcomes.last());
            assert(outcomes =~= seq![true] <==> front =~= Seq::<bool>::empty()
                && outcomes.last());
        }
    } else {
        assert(outcomes =~= Seq::<bool>::empty());
    }
}

/// The approval page is at the host, for the session, and asks for all the permissions,
/// with a comma between each two.
pub proof fn law_approval_url(host: Seq<char>, session_id: Seq<char>)
    ensures
        permissions().len() == 17,
        forall|i: int| 0 <= i < 17 ==> #[trigger] permissions()[i] == LOGIN_PERMISSIONS@[i]@,
        ({
            let url = approval_url(host, session_id);
            let start = "https://"@ + host + "/miauth/"@ + session_id
                + "?name=notetui&permission="@;
            &&& url.len() >= start.len()
            &&& url.take(start.len() as int) == start
            &&& url.skip(start.len() as int) == text::joined(permissions(), ","@)
        }),
{
    let url = approval_url(host, session_id);
    let start = "https://"@ + host + "/miauth/"@ + session_id + "?name=notetui&permission="@;
    assert(url.take(start.len() as int) =~= start);
    assert(url.skip(start.len() as int) =~= text::joined(permissions(), ","@));
}

/// Different sessions at a host are approved on different pages.
pub proof fn law_sessions_have_their_own_page(host: Seq<char>, a: Seq<char>, b: Seq<char>)
    requires
        approval_url(host, a) == approval_url(host, b),
    ensures
        a == b,
{
    let n = ("https://"@ + host + "/miauth/"@).len() as int;
    let u = approval_url(host, a);
    assert(u.len() == approval_url(host, b).len());
    assert(a.len() == b.len());
    assert(u.subrange(n, n + a.len()) =~= a);
    assert(approval_url(host, b).subrange(n, n + b.len()) =~= b);
}

/// What a random id looks like: 36 characters, hyphens at four places, and hexadecimal
/// digits in lower case at all the others, of which one gives the version and one the
/// variant.
pub proof fn law_id_form(id: Seq<char>, i: int)
    requires
        is_uuid_v4(id),
        0 <= i < 36,
    ensures
        id.len() == 36,
        i == 8 || i == 13 || i == 18 || i == 23 ==> id[i] == '-',
        i != 8 && i != 13 && i != 18 && i != 23 ==> '0' <= id[i] <= '9' || 'a' <= id[i] <= 'f',
        id[14] == '4',
        id[19] == '8' || id[19] == '9' || id[19] == 'a' || id[19] == 'b',
{
    assert(id[i] == id[i]);
}

/// An account holds what the server told, for the host where the user logged in.
pub proof fn law_account(account: Account, host: Seq<char>, auth: Auth)
    requires
        is_account_of(account, host, auth),
    ensures
        account.host@ == host,
        account.token@ == auth.token@,
        account.user_id@ == auth.user_id@,
        account.username@ == auth.username@,
        account.display_name == auth.name,
        account.avatar_url == auth.avatar_url,
        account.software@ == "misskey"@,
{
}

/// A step that fails ends the keeping of the token; the steps that succeed follow one
/// another, and the last ends it either way.
pub proof fn law_token_steps(step: TokenStep)
    ensures
        token_step_after(step, false) == TokenStep::Done,
        token_step_after(TokenStep::Store, true) == TokenStep::ReadBack,
        token_step_after(TokenStep::ReadBack, true) == TokenStep::ClearCopy,
        token_step_after(TokenStep::ClearCopy, true) == TokenStep::Done,
        token_step_after(TokenStep::Done, true) == TokenStep::Done,
{
}

} // verus!
