use notetui::login::{
    account_with_id, auth_url, first_account, login_message, login_request, new_account,
    next_token_step, permission_list, Account, Auth, TokenStep,
};

fn auth() -> Auth {
    Auth {
        token: String::from("tok"),
        user_id: String::from("u1"),
        username: String::from("ai"),
        name: Some(String::from("藍")),
        avatar_url: None,
    }
}

fn assert_uuid_v4(id: &str) {
    let parts: Vec<&str> = id.split('-').collect();
    let lens: Vec<usize> = parts.iter().map(|p| p.len()).collect();
    assert_eq!(lens, vec![8, 4, 4, 4, 12]);
    assert!(parts.concat().chars().all(|c| "0123456789abcdef".contains(c)));
    assert!(parts[2].starts_with('4'));
    assert!("89ab".contains(&parts[3][..1]));
}

const SCOPES: &str = "read:account,write:account,read:drive,write:drive,read:favorites,\
write:favorites,read:following,write:following,read:mutes,write:mutes,read:notes,write:notes,\
read:notifications,write:notifications,read:reactions,write:reactions,write:votes";

#[test]
fn permissions_are_joined_by_commas() {
    assert_eq!(permission_list(), SCOPES);
}

#[test]
fn the_approval_page_names_session_and_permissions() {
    assert_eq!(
        auth_url("misskey.io", "s-1"),
        format!("https://misskey.io/miauth/s-1?name=notetui&permission={}", SCOPES)
    );
}

#[test]
fn every_login_has_its_own_session() {
    let a = login_request("example.com");
    let b = login_request("example.com");
    assert_uuid_v4(&a.session_id);
    assert_uuid_v4(&b.session_id);
    assert_ne!(a.session_id, b.session_id);
    assert_eq!(a.url, auth_url("example.com", &a.session_id));
}

#[test]
fn the_account_holds_what_the_server_told() {
    let a = account_with_id(String::from("id-1"), "misskey.io", auth());
    assert_eq!(a.id, "id-1");
    assert_eq!(a.host, "misskey.io");
    assert_eq!(a.token, "tok");
    assert_eq!(a.user_id, "u1");
    assert_eq!(a.username, "ai");
    assert_eq!(a.display_name.as_deref(), Some("藍"));
    assert_eq!(a.avatar_url, None);
    assert_eq!(a.software, "misskey");
    assert_eq!(login_message(&a, "misskey.io"), "ログインしました: @ai@misskey.io");
}

#[test]
fn a_new_account_has_a_fresh_id() {
    let a = new_account("misskey.io", auth());
    assert_uuid_v4(&a.id);
    assert_eq!(a.username, "ai");
    assert_ne!(a.id, new_account("misskey.io", auth()).id);
}

#[test]
fn the_first_account_is_used() {
    let ids = |names: &[&str]| -> Vec<Account> {
        names
            .iter()
            .map(|n| account_with_id(String::from(*n), "h", auth()))
            .collect()
    };
    assert!(first_account(vec![]).is_none());
    assert_eq!(first_account(ids(&["a", "b"])).unwrap().id, "a");
}

#[test]
fn the_copy_is_cleared_only_after_reading_back() {
    assert_eq!(next_token_step(TokenStep::Store, true), TokenStep::ReadBack);
    assert_eq!(next_token_step(TokenStep::Store, false), TokenStep::Done);
    assert_eq!(next_token_step(TokenStep::ReadBack, true), TokenStep::ClearCopy);
    assert_eq!(next_token_step(TokenStep::ReadBack, false), TokenStep::Done);
    for ok in [true, false] {
        assert_eq!(next_token_step(TokenStep::ClearCopy, ok), TokenStep::Done);
        assert_eq!(next_token_step(TokenStep::Done, ok), TokenStep::Done);
    }
}
