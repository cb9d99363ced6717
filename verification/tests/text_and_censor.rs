use onelauncher_logs::logs::LogOutput;
use onelauncher_logs::secrets::{censor_text, MinecraftCredentials};
use onelauncher_logs::text::replace;

fn account(id: u128, username: &str, token: &str) -> MinecraftCredentials {
    MinecraftCredentials { id, username: username.to_string(), access_token: token.to_string() }
}

#[test]
fn replace_matches_std_on_samples() {
    let cases: Vec<(&str, &str, &str)> = vec![
        ("hello world", "o", "0"),
        ("aaaa", "aa", "b"),
        ("aab", "ab", "b"),
        ("abc", "", "x"),
        ("", "", "x"),
        ("", "a", "x"),
        ("short", "longer pattern", "x"),
        ("äöü/äöü", "ö", "oe"),
        ("token token", "token", ""),
    ];
    for (s, from, to) in cases {
        assert_eq!(replace(s, from, to), s.replace(from, to), "{s:?} {from:?} {to:?}");
    }
}

#[test]
fn replace_empty_pattern_inserts_everywhere() {
    assert_eq!(replace("abc", "", "-"), "-a-b-c-");
}

#[test]
fn replace_is_left_to_right_without_overlap() {
    assert_eq!(replace("aaa", "aa", "X"), "Xa");
}

#[test]
fn replace_absent_pattern_keeps_text() {
    assert_eq!(replace("nothing to see", "secret", "{X}"), "nothing to see");
}

#[test]
fn censors_user_paths() {
    let text = "/home/alice/.minecraft and C:\\Users\\alice\\x and /home/Alice Smith/y";
    let out = censor_text(text, "alice", "Alice Smith", &vec![]);
    assert_eq!(
        out,
        "/home/{ENV_USERNAME}/.minecraft and C:\\Users\\{ENV_USERNAME}\\x and /home/{ENV_REALNAME}/y"
    );
}

#[test]
fn user_name_outside_a_path_is_kept() {
    let out = censor_text("alice logged in", "alice", "Alice", &vec![]);
    assert_eq!(out, "alice logged in");
}

#[test]
fn censors_account_secrets() {
    let id: u128 = 0x0123456789abcdef0123456789abcdef;
    let creds = vec![account(id, "Steve", "tok123")];
    let text = "user Steve token tok123 uuid 0123456789abcdef0123456789abcdef \
                hyph 01234567-89ab-cdef-0123-456789abcdef";
    let out = censor_text(text, "nobody", "nobody", &creds);
    assert_eq!(
        out,
        "user {MC_USERNAME} token {MC_ACCESS_TOKEN} uuid {MC_UUID} hyph {MC_UUID}"
    );
}

#[test]
fn uuid_forms_follow_the_uuid_crate() {
    let id: u128 = 0xa1a2a3a4b1b2c1c2d1d2d3d4d5d6d7d8;
    let u = uuid::Uuid::from_u128(id);
    let text = format!("{} {}", u.as_simple(), u.as_hyphenated());
    let out = censor_text(&text, "x", "y", &vec![account(id, "zzzz", "qqqq")]);
    assert_eq!(out, "{MC_UUID} {MC_UUID}");
}

#[test]
fn accounts_are_censored_in_order() {
    let creds = vec![account(1, "ab", "first"), account(2, "cd", "second")];
    let out = censor_text("first second ab cd", "u", "r", &creds);
    assert_eq!(out, "{MC_ACCESS_TOKEN} {MC_ACCESS_TOKEN} {MC_USERNAME} {MC_USERNAME}");
}

#[test]
fn clean_text_passes_unchanged() {
    let creds = vec![account(7, "Herobrine", "secret-token")];
    let text = "[12:00:00] [main/INFO]: Loading Minecraft 1.8.9";
    assert_eq!(censor_text(text, "bob", "Bob B", &creds), text);
}

#[test]
fn empty_token_marks_every_position() {
    let creds = vec![account(7, "Herobrine", "")];
    let out = censor_text("ab", "bob", "Bob", &creds);
    assert_eq!(out, "{MC_ACCESS_TOKEN}a{MC_ACCESS_TOKEN}b{MC_ACCESS_TOKEN}");
}

#[test]
fn adjacent_user_paths_are_all_censored() {
    let out = censor_text("/x/x/", "x", "nobody-else", &vec![]);
    assert_eq!(out, "/{ENV_USERNAME}/{ENV_USERNAME}/");
    let out = censor_text("C:\\alice\\alice\\f", "alice", "Alice", &vec![]);
    assert_eq!(out, "C:\\{ENV_USERNAME}\\{ENV_USERNAME}\\f");
}

#[test]
fn censor_secrets_hides_adjacent_current_user_paths() {
    let user = whoami::username();
    if user.contains('{') || user.contains('}') || user.is_empty() {
        return;
    }
    let text = format!("/{u}/{u}/", u = user);
    let out = LogOutput::censor_secrets(text, &vec![]);
    assert!(!out.as_str().contains(&format!("/{}/", user)));
}

#[test]
fn token_and_name_are_gone_after_censoring() {
    let creds = vec![account(9, "Notch", "abc.def"), account(10, "Jeb", "xyz")];
    let out = censor_text("Notch Jebabc.defxyz Notch", "u", "r", &creds);
    assert_eq!(out, "{MC_USERNAME} {MC_USERNAME}{MC_ACCESS_TOKEN}{MC_ACCESS_TOKEN} {MC_USERNAME}");
    for c in &creds {
        assert!(!out.contains(&c.access_token));
        assert!(!out.contains(&c.username));
    }
}

#[test]
fn censor_secrets_hides_current_user() {
    let user = whoami::username();
    let text = format!("/home/{}/logs", user);
    let out = LogOutput::censor_secrets(text, &vec![]);
    assert!(!out.as_str().contains(&format!("/{}/", user)) || user.is_empty());
}

#[test]
fn censor_secrets_with_uses_given_names() {
    let out = LogOutput::censor_secrets_with("/a/b/".to_string(), "a", "b", &vec![]);
    assert_eq!(out.as_str(), "/{ENV_USERNAME}/{ENV_REALNAME}/");
}

#[test]
fn replace_leaves_no_occurrence_of_secret() {
    let out = replace("xsecretsecretysecret", "secret", "{HIDDEN}");
    assert_eq!(out, "x{HIDDEN}{HIDDEN}y{HIDDEN}");
    assert!(!out.contains("secret"));
}

#[test]
fn replace_creates_no_new_occurrence_of_other_text() {
    let out = replace("ab-cd", "-", "{X}");
    assert_eq!(out, "ab{X}cd");
    assert!(!out.contains("bc"));
}
