use vstd::prelude::*;

use crate::text::{
    brace_free, braced, chars_of, lemma_separated_not_within, marked_placeholder, occurs_at, occurs_in,
    push_all, push_char, replace, replace_all, replace_before,
    replace_before_creates_no_occurrence, replace_before_leaves_no_occurrence,
    replace_before_without_occurrence_is_identity, replace_creates_no_occurrence,
    replace_followed, replace_leaves_no_occurrence, replace_without_occurrence_is_identity,
};

verus! {

/// The details of a Minecraft account that must not leak into a log.
pub struct MinecraftCredentials {
    /// The account's UUID, as its 128-bit value.
    pub id: u128,
    /// The player name.
    pub username: String,
    /// The session access token.
    pub access_token: String,
}

/// The lowercase hexadecimal digit of a value below sixteen.
pub open spec fn hex_digit(n: int) -> char {
    seq!['0', '1', '2', '3', '4', '5', '6', '7', '8', '9', 'a', 'b', 'c', 'd', 'e', 'f'][n]
}

/// The last `count` lowercase hexadecimal digits of `v`, most significant first.
pub open spec fn hex_digits(v: nat, count: nat) -> Seq<char>
    decreases count,
{
    if count == 0 {
        seq![]
    } else {
        hex_digits(v / 16, (count - 1) as nat).push(hex_digit((v % 16) as int))
    }
}

/// A UUID in its simple form: 32 lowercase hexadecimal digits.
pub open spec fn uuid_simple(id: u128) -> Seq<char> {
    hex_digits(id as nat, 32)
}

/// A UUID in its hyphenated form: the simple form split 8-4-4-4-12 by dashes.
pub open spec fn uuid_hyphenated(id: u128) -> Seq<char> {
    let s = uuid_simple(id);
    s.subrange(0, 8) + seq!['-'] + s.subrange(8, 12) + seq!['-'] + s.subrange(12, 16) + seq!['-']
        + s.subrange(16, 20) + seq!['-'] + s.subrange(20, 32)
}

/// `uuid::Uuid::from_u128(id).as_simple().to_string()`: the 128-bit value
/// taken big-endian, each byte written as two lowercase hex digits.
#[verifier::external_body]
fn uuid_simple_string(id: u128) -> (res: String)
    ensures
        res@ == uuid_simple(id),
{
    uuid::Uuid::from_u128(id).as_simple().to_string()
}

/// `uuid::Uuid::from_u128(id).as_hyphenated().to_string()`: the simple form
/// with a dash after the 8th, 12th, 16th and 20th digit.
#[verifier::external_body]
fn uuid_hyphenated_string(id: u128) -> (res: String)
    ensures
        res@ == uuid_hyphenated(id),
{
    uuid::Uuid::from_u128(id).as_hyphenated().to_string()
}

/// `whoami::username()`: the current user's login name, read from the
/// operating system; nothing is stated of what it returns.
#[verifier::external_body]
pub(crate) fn current_username() -> String {
    whoami::username()
}

/// `whoami::realname()`: the current user's full name, read from the
/// operating system; nothing is stated of what it returns.
#[verifier::external_body]
pub(crate) fn current_realname() -> String {
    whoami::realname()
}

/// `s` between two copies of `c`.

/// `s` between two copies of `c`.
pub open spec fn surround(c: char, s: Seq<char>) -> Seq<char> {
    seq![c] + s + seq![c]
}

/// Hides the user's login and full name wherever they stand as a path
/// component between forward or backward slashes. The slash after a name
/// is kept, so that it can open the next component.
pub open spec fn censor_user(s: Seq<char>, username: Seq<char>, realname: Seq<char>) -> Seq<char> {
    let s1 = replace_before(s, seq!['/'] + username, '/', "/{ENV_USERNAME}"@);
    let s2 = replace_before(s1, seq!['\\'] + username, '\\', "\\{ENV_USERNAME}"@);
    let s3 = replace_before(s2, seq!['/'] + realname, '/', "/{ENV_REALNAME}"@);
    replace_before(s3, seq!['\\'] + realname, '\\', "\\{ENV_REALNAME}"@)
}

/// Hides one account's token, name and UUID (both forms).
pub open spec fn censor_account(s: Seq<char>, c: MinecraftCredentials) -> Seq<char> {
    let s1 = replace_all(s, c.access_token@, "{MC_ACCESS_TOKEN}"@);
    let s2 = replace_all(s1, c.username@, "{MC_USERNAME}"@);
    let s3 = replace_all(s2, uuid_simple(c.id), "{MC_UUID}"@);
    replace_all(s3, uuid_hyphenated(c.id), "{MC_UUID}"@)
}

/// Hides the accounts one after the other, in order.
pub open spec fn censor_accounts(s: Seq<char>, creds: Seq<MinecraftCredentials>) -> Seq<char>
    decreases creds.len(),
{
    if creds.len() == 0 {
        s
    } else {
        censor_account(censor_accounts(s, creds.drop_last()), creds.last())
    }
}

/// The whole censoring of a log text.
pub open spec fn censored(
    s: Seq<char>,
    username: Seq<char>,
    realname: Seq<char>,
    creds: Seq<MinecraftCredentials>,
) -> Seq<char> {
    censor_accounts(censor_user(s, username, realname), creds)
}

fn prefixed(c: char, s: &str) -> (res: String)
    ensures
        res@ == seq![c] + s@,
{
    let mut out = String::new();
    push_char(&mut out, c);
    let cs = chars_of(s);
    push_all(&mut out, &cs);
    out
}

/// Censors `output` for the given user names and accounts.
pub fn censor_text(
    output: &str,
    username: &str,
    realname: &str,
    credentials: &Vec<MinecraftCredentials>,
) -> (res: String)
    ensures
        res@ == censored(output@, username@, realname@, credentials@),
{
    let p = prefixed('/', username);
    let out = replace_followed(output, p.as_str(), '/', "/{ENV_USERNAME}");
    let p = prefixed('\\', username);
    let out = replace_followed(out.as_str(), p.as_str(), '\\', "\\{ENV_USERNAME}");
    let p = prefixed('/', realname);
    let out = replace_followed(out.as_str(), p.as_str(), '/', "/{ENV_REALNAME}");
    let p = prefixed('\\', realname);
    let mut out = replace_followed(out.as_str(), p.as_str(), '\\', "\\{ENV_REALNAME}");
    let ghost start = out@;
    assert(credentials@.take(0) =~= Seq::<MinecraftCredentials>::empty());
    let mut i: usize = 0;
    while i < credentials.len()
        invariant
            i <= credentials.len(),
            start == censor_user(output@, username@, realname@),
            out@ == censor_accounts(start, credentials@.take(i as int)),
        decreases credentials.len() - i,
    {
        let cred = &credentials[i];
        let o1 = replace(out.as_str(), cred.access_token.as_str(), "{MC_ACCESS_TOKEN}");
        let o2 = replace(o1.as_str(), cred.username.as_str(), "{MC_USERNAME}");
        let simple = uuid_simple_string(cred.id);
        let o3 = replace(o2.as_str(), simple.as_str(), "{MC_UUID}");
        let hyphenated = uuid_hyphenated_string(cred.id);
        out = replace(o3.as_str(), hyphenated.as_str(), "{MC_UUID}");
        assert(credentials@.take(i + 1).drop_last() =~= credentials@.take(i as int));
        i = i + 1;
    }
    assert(credentials@.take(credentials.len() as int) =~= credentials@);
    out
}

} // verus!

verus! {

/// A character that can appear in a written UUID.
pub open spec fn is_uuid_char(c: char) -> bool {
    ('0' <= c && c <= '9') || ('a' <= c && c <= 'f') || c == '-'
}

proof fn lemma_hex_digits(v: nat, count: nat)
    ensures
        hex_digits(v, count).len() == count,
        forall|i: int| 0 <= i < count ==> is_uuid_char(#[trigger] hex_digits(v, count)[i]),
    decreases count,
{
    if count > 0 {
        lemma_hex_digits(v / 16, (count - 1) as nat);
        let d = (v % 16) as int;
        assert(is_uuid_char(hex_digit(d))) by {
            assert(0 <= d < 16);
        }
    }
}

proof fn lemma_uuid_forms(id: u128)
    ensures
        uuid_simple(id).len() == 32,
        uuid_hyphenated(id).len() == 36,
        forall|i: int| 0 <= i < 32 ==> is_uuid_char(#[trigger] uuid_simple(id)[i]),
        forall|i: int| 0 <= i < 36 ==> is_uuid_char(#[trigger] uuid_hyphenated(id)[i]),
{
    lemma_hex_digits(id as nat, 32);
    let s = uuid_simple(id);
    let h = uuid_hyphenated(id);
    assert forall|i: int| 0 <= i < 36 implies is_uuid_char(#[trigger] h[i]) by {
        if i < 8 {
            assert(h[i] == s[i]);
        } else if i == 8 {
        } else if i < 13 {
            assert(h[i] == s[i - 1]);
        } else if i == 13 {
        } else if i < 18 {
            assert(h[i] == s[i - 2]);
        } else if i == 18 {
        } else if i < 23 {
            assert(h[i] == s[i - 3]);
        } else if i == 23 {
        } else {
            assert(h[i] == s[i - 4]);
        }
    }
}


/// Facts on the placeholders that censoring writes.
proof fn lemma_placeholders()
    ensures
        braced("{MC_UUID}"@),
        braced("{MC_ACCESS_TOKEN}"@),
        braced("{MC_USERNAME}"@),
        "{MC_UUID}"@.len() == 9,
        "{MC_ACCESS_TOKEN}"@.len() == 17,
        "{MC_USERNAME}"@.len() == 13,
        forall|k: int|
            0 <= k < "{MC_UUID}"@.len() ==> #[trigger] "{MC_UUID}"@[k] != '/' && "{MC_UUID}"@[k]
                != '\\',
        forall|k: int|
            0 <= k < "{MC_ACCESS_TOKEN}"@.len() ==> #[trigger] "{MC_ACCESS_TOKEN}"@[k] != '/'
                && "{MC_ACCESS_TOKEN}"@[k] != '\\',
        forall|k: int|
            0 <= k < "{MC_USERNAME}"@.len() ==> #[trigger] "{MC_USERNAME}"@[k] != '/'
                && "{MC_USERNAME}"@[k] != '\\',
        marked_placeholder("/{ENV_USERNAME}"@, '/'),
        marked_placeholder("\\{ENV_USERNAME}"@, '\\'),
        marked_placeholder("/{ENV_REALNAME}"@, '/'),
        marked_placeholder("\\{ENV_REALNAME}"@, '\\'),
        forall|k: int|
            0 < k < "/{ENV_USERNAME}"@.len() ==> #[trigger] "/{ENV_USERNAME}"@[k] != '/'
                && "/{ENV_USERNAME}"@[k] != '\\',
        forall|k: int|
            0 < k < "\\{ENV_USERNAME}"@.len() ==> #[trigger] "\\{ENV_USERNAME}"@[k] != '/'
                && "\\{ENV_USERNAME}"@[k] != '\\',
        forall|k: int|
            0 < k < "/{ENV_REALNAME}"@.len() ==> #[trigger] "/{ENV_REALNAME}"@[k] != '/'
                && "/{ENV_REALNAME}"@[k] != '\\',
        forall|k: int|
            0 < k < "\\{ENV_REALNAME}"@.len() ==> #[trigger] "\\{ENV_REALNAME}"@[k] != '/'
                && "\\{ENV_REALNAME}"@[k] != '\\',
{
    reveal_strlit("{MC_UUID}");
    reveal_strlit("{MC_ACCESS_TOKEN}");
    reveal_strlit("{MC_USERNAME}");
    reveal_strlit("/{ENV_USERNAME}");
    reveal_strlit("\\{ENV_USERNAME}");
    reveal_strlit("/{ENV_REALNAME}");
    reveal_strlit("\\{ENV_REALNAME}");
    assert("/{ENV_USERNAME}"@.skip(1)[0] == '{');
    assert("\\{ENV_USERNAME}"@.skip(1)[0] == '{');
    assert("/{ENV_REALNAME}"@.skip(1)[0] == '{');
    assert("\\{ENV_REALNAME}"@.skip(1)[0] == '{');
}

} // verus!

verus! {

/// Text that may stand as a secret: non-empty, brace-free, and not found
/// inside any placeholder that accounts are censored with.
pub open spec fn is_secret_text(q: Seq<char>) -> bool {
    &&& q.len() > 0
    &&& brace_free(q)
    &&& !occurs_in("{MC_ACCESS_TOKEN}"@, q)
    &&& !occurs_in("{MC_USERNAME}"@, q)
    &&& !occurs_in("{MC_UUID}"@, q)
}

proof fn lemma_uuid_texts(id: u128)
    ensures
        is_secret_text(uuid_simple(id)),
        is_secret_text(uuid_hyphenated(id)),
{
    lemma_uuid_forms(id);
    lemma_placeholders();
    let s = uuid_simple(id);
    let h = uuid_hyphenated(id);
    assert(!s.contains('{') && !s.contains('}')) by {
        if s.contains('{') {
            let k = choose|k: int| 0 <= k < s.len() && s[k] == '{';
            assert(is_uuid_char(s[k]));
        }
        if s.contains('}') {
            let k = choose|k: int| 0 <= k < s.len() && s[k] == '}';
            assert(is_uuid_char(s[k]));
        }
    }
    assert(!h.contains('{') && !h.contains('}')) by {
        if h.contains('{') {
            let k = choose|k: int| 0 <= k < h.len() && h[k] == '{';
            assert(is_uuid_char(h[k]));
        }
        if h.contains('}') {
            let k = choose|k: int| 0 <= k < h.len() && h[k] == '}';
            assert(is_uuid_char(h[k]));
        }
    }
}

/// The text `c`, `x`, `c`, which is how a path component is looked for.
proof fn lemma_component(c: char, x: Seq<char>)
    requires
        c == '/' || c == '\\',
        brace_free(x),
    ensures
        surround(c, x) == (seq![c] + x).push(c),
        surround(c, x).len() >= 2,
        surround(c, x)[0] == c,
        surround(c, x).last() == c,
        brace_free(surround(c, x)),
        is_secret_text(surround(c, x)),
{
    let q = surround(c, x);
    assert(q =~= (seq![c] + x).push(c));
    assert(!q.contains('{')) by {
        if q.contains('{') {
            let k = choose|k: int| 0 <= k < q.len() && q[k] == '{';
            if 0 < k < q.len() - 1 {
                assert(x[k - 1] == q[k]);
                assert(x.contains('{'));
            }
        }
    }
    assert(!q.contains('}')) by {
        if q.contains('}') {
            let k = choose|k: int| 0 <= k < q.len() && q[k] == '}';
            if 0 < k < q.len() - 1 {
                assert(x[k - 1] == q[k]);
                assert(x.contains('}'));
            }
        }
    }
    lemma_placeholders();
    lemma_separated_not_within("{MC_ACCESS_TOKEN}"@, q, c);
    lemma_separated_not_within("{MC_USERNAME}"@, q, c);
    lemma_separated_not_within("{MC_UUID}"@, q, c);
}

proof fn lemma_account_keeps_absent(s: Seq<char>, c: MinecraftCredentials, q: Seq<char>)
    requires
        is_secret_text(q),
        !occurs_in(s, q),
    ensures
        !occurs_in(censor_account(s, c), q),
{
    lemma_placeholders();
    let s1 = replace_all(s, c.access_token@, "{MC_ACCESS_TOKEN}"@);
    replace_creates_no_occurrence(s, c.access_token@, "{MC_ACCESS_TOKEN}"@, q);
    let s2 = replace_all(s1, c.username@, "{MC_USERNAME}"@);
    replace_creates_no_occurrence(s1, c.username@, "{MC_USERNAME}"@, q);
    let s3 = replace_all(s2, uuid_simple(c.id), "{MC_UUID}"@);
    replace_creates_no_occurrence(s2, uuid_simple(c.id), "{MC_UUID}"@, q);
    replace_creates_no_occurrence(s3, uuid_hyphenated(c.id), "{MC_UUID}"@, q);
}

proof fn lemma_accounts_keep_absent(u: Seq<char>, creds: Seq<MinecraftCredentials>, q: Seq<char>)
    requires
        is_secret_text(q),
        !occurs_in(u, q),
    ensures
        !occurs_in(censor_accounts(u, creds), q),
    decreases creds.len(),
{
    if creds.len() > 0 {
        lemma_accounts_keep_absent(u, creds.drop_last(), q);
        lemma_account_keeps_absent(censor_accounts(u, creds.drop_last()), creds.last(), q);
    }
}

/// The secrets of account `j` that are hidden for good.
pub open spec fn hidden_secrets_of(c: MinecraftCredentials, q: Seq<char>) -> bool {
    ||| q == uuid_simple(c.id)
    ||| q == uuid_hyphenated(c.id)
    ||| (q == c.access_token@ && is_secret_text(q))
    ||| (q == c.username@ && is_secret_text(q))
}

proof fn lemma_account_hides_own(s: Seq<char>, c: MinecraftCredentials, q: Seq<char>)
    requires
        hidden_secrets_of(c, q),
    ensures
        !occurs_in(censor_account(s, c), q),
{
    lemma_placeholders();
    lemma_uuid_texts(c.id);
    let s1 = replace_all(s, c.access_token@, "{MC_ACCESS_TOKEN}"@);
    let s2 = replace_all(s1, c.username@, "{MC_USERNAME}"@);
    let s3 = replace_all(s2, uuid_simple(c.id), "{MC_UUID}"@);
    let s4 = replace_all(s3, uuid_hyphenated(c.id), "{MC_UUID}"@);
    if q == c.access_token@ && is_secret_text(q) {
        replace_leaves_no_occurrence(s, q, "{MC_ACCESS_TOKEN}"@);
        lemma_account_rest(s1, c, q, 1);
    } else if q == c.username@ && is_secret_text(q) {
        replace_leaves_no_occurrence(s1, q, "{MC_USERNAME}"@);
        lemma_account_rest(s2, c, q, 2);
    } else if q == uuid_simple(c.id) {
        replace_leaves_no_occurrence(s2, q, "{MC_UUID}"@);
        lemma_account_rest(s3, c, q, 3);
    } else {
        replace_leaves_no_occurrence(s3, q, "{MC_UUID}"@);
    }
}

/// The replacements of one account after the `done` first ones keep a
/// secret text absent.
proof fn lemma_account_rest(t: Seq<char>, c: MinecraftCredentials, q: Seq<char>, done: int)
    requires
        1 <= done <= 3,
        is_secret_text(q),
        !occurs_in(t, q),
    ensures
        done == 1 ==> !occurs_in(
            replace_all(
                replace_all(
                    replace_all(t, c.username@, "{MC_USERNAME}"@),
                    uuid_simple(c.id),
                    "{MC_UUID}"@,
                ),
                uuid_hyphenated(c.id),
                "{MC_UUID}"@,
            ),
            q,
        ),
        done == 2 ==> !occurs_in(
            replace_all(
                replace_all(t, uuid_simple(c.id), "{MC_UUID}"@),
                uuid_hyphenated(c.id),
                "{MC_UUID}"@,
            ),
            q,
        ),
        done == 3 ==> !occurs_in(replace_all(t, uuid_hyphenated(c.id), "{MC_UUID}"@), q),
{
    lemma_placeholders();
    if done == 1 {
        let t2 = replace_all(t, c.username@, "{MC_USERNAME}"@);
        replace_creates_no_occurrence(t, c.username@, "{MC_USERNAME}"@, q);
        let t3 = replace_all(t2, uuid_simple(c.id), "{MC_UUID}"@);
        replace_creates_no_occurrence(t2, uuid_simple(c.id), "{MC_UUID}"@, q);
        replace_creates_no_occurrence(t3, uuid_hyphenated(c.id), "{MC_UUID}"@, q);
    } else if done == 2 {
        let t3 = replace_all(t, uuid_simple(c.id), "{MC_UUID}"@);
        replace_creates_no_occurrence(t, uuid_simple(c.id), "{MC_UUID}"@, q);
        replace_creates_no_occurrence(t3, uuid_hyphenated(c.id), "{MC_UUID}"@, q);
    } else {
        replace_creates_no_occurrence(t, uuid_hyphenated(c.id), "{MC_UUID}"@, q);
    }
}

proof fn lemma_secrets_absent(u: Seq<char>, creds: Seq<MinecraftCredentials>, j: int, q: Seq<char>)
    requires
        0 <= j < creds.len(),
        hidden_secrets_of(creds[j], q),
    ensures
        !occurs_in(censor_accounts(u, creds), q),
    decreases creds.len(),
{
    let prev = censor_accounts(u, creds.drop_last());
    lemma_uuid_texts(creds[j].id);
    if j < creds.len() - 1 {
        assert(creds.drop_last()[j] == creds[j]);
        lemma_secrets_absent(u, creds.drop_last(), j, q);
        lemma_account_keeps_absent(prev, creds.last(), q);
    } else {
        lemma_account_hides_own(prev, creds.last(), q);
    }
}

/// After censoring, no account's UUID is left in the text, in its simple
/// or its hyphenated form; nor its access token or player name, where these
/// are secret texts (non-empty, brace-free, not part of a placeholder).
pub proof fn censoring_hides_account_secrets(
    s: Seq<char>,
    username: Seq<char>,
    realname: Seq<char>,
    creds: Seq<MinecraftCredentials>,
    j: int,
)
    requires
        0 <= j < creds.len(),
    ensures
        !occurs_in(censored(s, username, realname, creds), uuid_simple(creds[j].id)),
        !occurs_in(censored(s, username, realname, creds), uuid_hyphenated(creds[j].id)),
        is_secret_text(creds[j].access_token@) ==> !occurs_in(
            censored(s, username, realname, creds),
            creds[j].access_token@,
        ),
        is_secret_text(creds[j].username@) ==> !occurs_in(
            censored(s, username, realname, creds),
            creds[j].username@,
        ),
{
    let u = censor_user(s, username, realname);
    lemma_secrets_absent(u, creds, j, uuid_simple(creds[j].id));
    lemma_secrets_absent(u, creds, j, uuid_hyphenated(creds[j].id));
    if is_secret_text(creds[j].access_token@) {
        lemma_secrets_absent(u, creds, j, creds[j].access_token@);
    }
    if is_secret_text(creds[j].username@) {
        lemma_secrets_absent(u, creds, j, creds[j].username@);
    }
}

/// After censoring, neither the login nor the full name (when brace-free)
/// is left as a path component between forward or backward slashes.
pub proof fn censoring_hides_user_paths(
    s: Seq<char>,
    username: Seq<char>,
    realname: Seq<char>,
    creds: Seq<MinecraftCredentials>,
)
    requires
        brace_free(username),
        brace_free(realname),
    ensures
        !occurs_in(censored(s, username, realname, creds), surround('/', username)),
        !occurs_in(censored(s, username, realname, creds), surround('\\', username)),
        !occurs_in(censored(s, username, realname, creds), surround('/', realname)),
        !occurs_in(censored(s, username, realname, creds), surround('\\', realname)),
{
    lemma_placeholders();
    let pu = "/{ENV_USERNAME}"@;
    let bu = "\\{ENV_USERNAME}"@;
    let pr = "/{ENV_REALNAME}"@;
    let br = "\\{ENV_REALNAME}"@;
    let q1 = surround('/', username);
    let q2 = surround('\\', username);
    let q3 = surround('/', realname);
    let q4 = surround('\\', realname);
    lemma_component('/', username);
    lemma_component('\\', username);
    lemma_component('/', realname);
    lemma_component('\\', realname);
    lemma_separated_not_within(pu, q1, '/');
    lemma_separated_not_within(bu, q1, '/');
    lemma_separated_not_within(pr, q1, '/');
    lemma_separated_not_within(br, q1, '/');
    lemma_separated_not_within(bu, q2, '\\');
    lemma_separated_not_within(pr, q2, '\\');
    lemma_separated_not_within(br, q2, '\\');
    lemma_separated_not_within(pr, q3, '/');
    lemma_separated_not_within(br, q3, '/');
    lemma_separated_not_within(br, q4, '\\');
    let s1 = replace_before(s, seq!['/'] + username, '/', pu);
    let s2 = replace_before(s1, seq!['\\'] + username, '\\', bu);
    let s3 = replace_before(s2, seq!['/'] + realname, '/', pr);
    let s4 = replace_before(s3, seq!['\\'] + realname, '\\', br);
    assert((seq!['/'] + username)[0] == '/');
    assert((seq!['\\'] + username)[0] == '\\');
    assert((seq!['/'] + realname)[0] == '/');
    assert((seq!['\\'] + realname)[0] == '\\');
    replace_before_leaves_no_occurrence(s, seq!['/'] + username, '/', pu);
    replace_before_creates_no_occurrence(s1, seq!['\\'] + username, '\\', bu, q1);
    replace_before_leaves_no_occurrence(s1, seq!['\\'] + username, '\\', bu);
    replace_before_creates_no_occurrence(s2, seq!['/'] + realname, '/', pr, q1);
    replace_before_creates_no_occurrence(s2, seq!['/'] + realname, '/', pr, q2);
    replace_before_leaves_no_occurrence(s2, seq!['/'] + realname, '/', pr);
    replace_before_creates_no_occurrence(s3, seq!['\\'] + realname, '\\', br, q1);
    replace_before_creates_no_occurrence(s3, seq!['\\'] + realname, '\\', br, q2);
    replace_before_creates_no_occurrence(s3, seq!['\\'] + realname, '\\', br, q3);
    replace_before_leaves_no_occurrence(s3, seq!['\\'] + realname, '\\', br);
    lemma_accounts_keep_absent(s4, creds, q1);
    lemma_accounts_keep_absent(s4, creds, q2);
    lemma_accounts_keep_absent(s4, creds, q3);
    lemma_accounts_keep_absent(s4, creds, q4);
}

proof fn lemma_clean_accounts(s: Seq<char>, creds: Seq<MinecraftCredentials>)
    requires
        forall|i: int|
            0 <= i < creds.len() ==> {
                &&& (#[trigger] creds[i]).access_token@.len() > 0
                &&& creds[i].username@.len() > 0
                &&& !occurs_in(s, creds[i].access_token@)
                &&& !occurs_in(s, creds[i].username@)
                &&& !occurs_in(s, uuid_simple(creds[i].id))
                &&& !occurs_in(s, uuid_hyphenated(creds[i].id))
            },
    ensures
        censor_accounts(s, creds) == s,
    decreases creds.len(),
{
    if creds.len() > 0 {
        assert forall|i: int| 0 <= i < creds.drop_last().len() implies {
            &&& (#[trigger] creds.drop_last()[i]).access_token@.len() > 0
            &&& creds.drop_last()[i].username@.len() > 0
            &&& !occurs_in(s, creds.drop_last()[i].access_token@)
            &&& !occurs_in(s, creds.drop_last()[i].username@)
            &&& !occurs_in(s, uuid_simple(creds.drop_last()[i].id))
            &&& !occurs_in(s, uuid_hyphenated(creds.drop_last()[i].id))
        } by {
            assert(creds.drop_last()[i] == creds[i]);
        }
        lemma_clean_accounts(s, creds.drop_last());
        let c = creds.last();
        assert(c == creds[creds.len() - 1]);
        lemma_uuid_forms(c.id);
        replace_without_occurrence_is_identity(s, c.access_token@, "{MC_ACCESS_TOKEN}"@);
        replace_without_occurrence_is_identity(s, c.username@, "{MC_USERNAME}"@);
        replace_without_occurrence_is_identity(s, uuid_simple(c.id), "{MC_UUID}"@);
        replace_without_occurrence_is_identity(s, uuid_hyphenated(c.id), "{MC_UUID}"@);
    }
}

/// Text in which none of the secrets occurs passes through censoring
/// unchanged (an empty token or player name would instead be matched
/// everywhere).
pub proof fn censoring_clean_text_is_identity(
    s: Seq<char>,
    username: Seq<char>,
    realname: Seq<char>,
    creds: Seq<MinecraftCredentials>,
)
    requires
        !occurs_in(s, surround('/', username)),
        !occurs_in(s, surround('\\', username)),
        !occurs_in(s, surround('/', realname)),
        !occurs_in(s, surround('\\', realname)),
        forall|i: int|
            0 <= i < creds.len() ==> {
                &&& (#[trigger] creds[i]).access_token@.len() > 0
                &&& creds[i].username@.len() > 0
                &&& !occurs_in(s, creds[i].access_token@)
                &&& !occurs_in(s, creds[i].username@)
                &&& !occurs_in(s, uuid_simple(creds[i].id))
                &&& !occurs_in(s, uuid_hyphenated(creds[i].id))
            },
    ensures
        censored(s, username, realname, creds) == s,
{
    assert(surround('/', username) =~= (seq!['/'] + username).push('/'));
    assert(surround('\\', username) =~= (seq!['\\'] + username).push('\\'));
    assert(surround('/', realname) =~= (seq!['/'] + realname).push('/'));
    assert(surround('\\', realname) =~= (seq!['\\'] + realname).push('\\'));
    replace_before_without_occurrence_is_identity(s, seq!['/'] + username, '/', "/{ENV_USERNAME}"@);
    replace_before_without_occurrence_is_identity(
        s,
        seq!['\\'] + username,
        '\\',
        "\\{ENV_USERNAME}"@,
    );
    replace_before_without_occurrence_is_identity(s, seq!['/'] + realname, '/', "/{ENV_REALNAME}"@);
    replace_before_without_occurrence_is_identity(
        s,
        seq!['\\'] + realname,
        '\\',
        "\\{ENV_REALNAME}"@,
    );
    lemma_clean_accounts(s, creds);
}

/// Empty text stays empty, where no account has an empty token or player
/// name.
pub proof fn censoring_empty_text_is_empty(
    username: Seq<char>,
    realname: Seq<char>,
    creds: Seq<MinecraftCredentials>,
)
    requires
        forall|i: int|
            0 <= i < creds.len() ==> (#[trigger] creds[i]).access_token@.len() > 0
                && creds[i].username@.len() > 0,
    ensures
        censored(Seq::<char>::empty(), username, realname, creds) == Seq::<char>::empty(),
{
    let e = Seq::<char>::empty();
    assert forall|q: Seq<char>| q.len() > 0 implies !occurs_in(e, q) by {
        assert forall|i: int| !occurs_at(e, q, i) by {}
    }
    assert forall|i: int| 0 <= i < creds.len() implies {
        &&& (#[trigger] creds[i]).access_token@.len() > 0
        &&& creds[i].username@.len() > 0
        &&& !occurs_in(e, creds[i].access_token@)
        &&& !occurs_in(e, creds[i].username@)
        &&& !occurs_in(e, uuid_simple(creds[i].id))
        &&& !occurs_in(e, uuid_hyphenated(creds[i].id))
    } by {
        lemma_uuid_forms(creds[i].id);
    }
    assert(surround('/', username).len() > 0);
    assert(surround('\\', username).len() > 0);
    assert(surround('/', realname).len() > 0);
    assert(surround('\\', realname).len() > 0);
    censoring_clean_text_is_identity(e, username, realname, creds);
}

} // verus!
