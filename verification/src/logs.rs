use vstd::prelude::*;

use crate::secrets::{censor_text, censored, current_realname, current_username, MinecraftCredentials};
use crate::text::chars_of;

verus! {

/// The text that `String::from_utf8_lossy` makes of a byte sequence:
/// each invalid sequence becomes U+FFFD.
pub uninterp spec fn utf8_lossy(bytes: Seq<u8>) -> Seq<char>;

/// `String::from_utf8_lossy(bytes).to_string()`. What it returns is named
/// `utf8_lossy` of the bytes; of valid UTF-8 it is the plain decoding.
#[verifier::external_body]
fn decode_lossy(bytes: &[u8]) -> (res: String)
    ensures
        res@ == utf8_lossy(bytes@),
        vstd::utf8::valid_utf8(bytes@) ==> res@ == vstd::utf8::decode_utf8(bytes@),
{
    String::from_utf8_lossy(bytes).to_string()
}

/// The log output: a log text with the user's secrets censored.
pub struct LogOutput(String);

impl View for LogOutput {
    type V = Seq<char>;

    closed spec fn view(&self) -> Seq<char> {
        self.0@
    }
}

impl LogOutput {
    /// Censors `output` for the given login name, full name and accounts.
    pub fn censor_secrets_with(
        output: String,
        username: &str,
        realname: &str,
        credentials: &Vec<MinecraftCredentials>,
    ) -> (res: Self)
        ensures
            res@ == censored(output@, username@, realname@, credentials@),
    {
        LogOutput(censor_text(output.as_str(), username, realname, credentials))
    }

    /// Censors user secrets: the current user's login and full name where
    /// they stand as a path component, and each account's access token,
    /// player name and UUID.
    pub fn censor_secrets(output: String, credentials: &Vec<MinecraftCredentials>) -> (res: Self)
        ensures
            exists|username: Seq<char>, realname: Seq<char>|
                #[trigger] censored(output@, username, realname, credentials@) == res@,
    {
        let username = current_username();
        let realname = current_realname();
        let res = Self::censor_secrets_with(output, username.as_str(), realname.as_str(), credentials);
        assert(censored(output@, username@, realname@, credentials@) == res@);
        res
    }

    /// An empty output.
    pub fn empty() -> (res: Self)
        ensures
            res@ == Seq::<char>::empty(),
    {
        LogOutput(String::new())
    }

    /// The censored text.
    pub fn as_str(&self) -> (res: &str)
        ensures
            res@ == self@,
    {
        self.0.as_str()
    }
}

/// Where a read of a log file starts and whether the file is taken as new.
pub open spec fn read_start_spec(requested: u64, file_len: u64) -> (u64, bool) {
    if requested > file_len {
        (0, true)
    } else {
        (requested, false)
    }
}

/// The log cursor used to follow a log file as it grows.
pub struct LogCursor {
    /// The position in the file up to which it has been read.
    pub cursor: u64,
    /// The output read since the previous position.
    pub output: LogOutput,
    /// Whether the file was started over (it became shorter than the cursor).
    pub new: bool,
}

impl LogCursor {
    /// The cursor given for a log file that does not exist.
    pub fn missing() -> (res: Self)
        ensures
            res.cursor == 0,
            !res.new,
            res.output@ == Seq::<char>::empty(),
    {
        LogCursor { cursor: 0, output: LogOutput::empty(), new: false }
    }

    /// Where to start reading a file of `file_len` bytes when the caller
    /// asks for `requested`: a position beyond the end means the file was
    /// replaced, and reading starts over at 0.
    pub fn read_start(requested: u64, file_len: u64) -> (res: (u64, bool))
        ensures
            res == read_start_spec(requested, file_len),
            res.0 <= file_len,
    {
        if requested > file_len {
            (0, true)
        } else {
            (requested, false)
        }
    }

    /// The cursor after `bytes` were read from `start`, censored for the
    /// given names and accounts.
    pub fn after_read_with(
        start: u64,
        new: bool,
        bytes: &[u8],
        username: &str,
        realname: &str,
        credentials: &Vec<MinecraftCredentials>,
    ) -> (res: Self)
        requires
            start + bytes@.len() <= u64::MAX,
        ensures
            res.cursor == start + bytes@.len(),
            res.new == new,
            res.output@ == censored(utf8_lossy(bytes@), username@, realname@, credentials@),
            vstd::utf8::valid_utf8(bytes@) ==> res.output@ == censored(
                vstd::utf8::decode_utf8(bytes@),
                username@,
                realname@,
                credentials@,
            ),
            bytes@.len() == 0 ==> res.output@ == censored(
                Seq::<char>::empty(),
                username@,
                realname@,
                credentials@,
            ),
    {
        let text = decode_lossy(bytes);
        proof {
            if bytes@.len() == 0 {
                assert(vstd::utf8::valid_utf8(bytes@));
                assert(vstd::utf8::decode_utf8(bytes@) =~= Seq::<char>::empty());
            }
        }
        let output = LogOutput::censor_secrets_with(text, username, realname, credentials);
        let n = bytes.len() as u64;
        LogCursor { cursor: start + n, output, new }
    }

    /// The cursor after `bytes` were read from `start`, censored for the
    /// current user and the given accounts.
    pub fn after_read(
        start: u64,
        new: bool,
        bytes: &[u8],
        credentials: &Vec<MinecraftCredentials>,
    ) -> (res: Self)
        requires
            start + bytes@.len() <= u64::MAX,
        ensures
            res.cursor == start + bytes@.len(),
            res.new == new,
            exists|username: Seq<char>, realname: Seq<char>|
                #[trigger] censored(utf8_lossy(bytes@), username, realname, credentials@)
                    == res.output@ && (vstd::utf8::valid_utf8(bytes@) ==> res.output@ == censored(
                    vstd::utf8::decode_utf8(bytes@),
                    username,
                    realname,
                    credentials@,
                )),
    {
        let username = current_username();
        let realname = current_realname();
        let res = Self::after_read_with(
            start,
            new,
            bytes,
            username.as_str(),
            realname.as_str(),
            credentials,
        );
        assert(censored(utf8_lossy(bytes@), username@, realname@, credentials@) == res.output@);
        res
    }
}

/// Following a file that only grew by `appended` bytes since the cursor was
/// taken: reading goes on at the cursor, and the file is not new.
pub proof fn following_a_growing_file(cursor: u64, appended: u64)
    requires
        cursor + appended <= u64::MAX,
    ensures
        read_start_spec(cursor, (cursor + appended) as u64) == (cursor, false),
{
}

/// Following a file that does not change: a read that stays within the
/// file leaves a cursor from which the next read goes on where it stopped;
/// a file that became shorter than the cursor is read again from the start.
pub proof fn cursor_resumes(requested: u64, file_len: u64, read: u64)
    requires
        read_start_spec(requested, file_len).0 + read <= file_len,
    ensures
        read_start_spec((read_start_spec(requested, file_len).0 + read) as u64, file_len) == (
            (read_start_spec(requested, file_len).0 + read) as u64,
            false,
        ),
        requested > file_len ==> read_start_spec(requested, file_len) == (0u64, true),
{
}

/// A log manager: one log file of a cluster and, unless cleared, its output.
pub struct LogManager {
    /// The log file's name.
    pub log_file: String,
    /// The censored output of the log file.
    pub output: Option<LogOutput>,
}

/// The formats in which log files are read.
#[derive(Debug, PartialEq, Eq, Structural, Clone, Copy)]
pub enum LogFormat {
    /// A gzip-compressed log (`.gz`).
    Gzip,
    /// A plain log (`.log`).
    Plain,
}

/// Errors in reading a log file.
#[derive(Debug, PartialEq, Eq, Structural, Clone, Copy)]
pub enum LogError {
    /// The file's extension is neither `gz` nor `log`.
    UnsupportedExtension,
    /// The file is no valid gzip data.
    InvalidGzip,
}

/// The format of a log file with the given extension.
pub open spec fn format_of(ext: Option<Seq<char>>) -> Result<LogFormat, LogError> {
    match ext {
        Some(e) => if e == seq!['g', 'z'] {
            Ok(LogFormat::Gzip)
        } else if e == seq!['l', 'o', 'g'] {
            Ok(LogFormat::Plain)
        } else {
            Err(LogError::UnsupportedExtension)
        },
        None => Err(LogError::UnsupportedExtension),
    }
}

fn chars_equal(a: &Vec<char>, b: &Vec<char>) -> (res: bool)
    ensures
        res == (a@ == b@),
{
    if a.len() != b.len() {
        return false;
    }
    let mut i: usize = 0;
    while i < a.len()
        invariant
            a.len() == b.len(),
            i <= a.len(),
            forall|j: int| 0 <= j < i ==> a@[j] == b@[j],
        decreases a.len() - i,
    {
        if a[i] != b[i] {
            return false;
        }
        i = i + 1;
    }
    assert(a@ =~= b@);
    true
}

impl LogFormat {
    /// The format of a log file by its extension (`None` where it has none).
    pub fn from_extension(ext: Option<&str>) -> (res: Result<LogFormat, LogError>)
        ensures
            res == format_of(
                match ext {
                    Some(e) => Some(e@),
                    None => None,
                },
            ),
    {
        match ext {
            None => Err(LogError::UnsupportedExtension),
            Some(e) => {
                let ec = chars_of(e);
                let mut gz: Vec<char> = Vec::new();
                gz.push('g');
                gz.push('z');
                let mut lg: Vec<char> = Vec::new();
                lg.push('l');
                lg.push('o');
                lg.push('g');
                assert(gz@ =~= seq!['g', 'z']);
                assert(lg@ =~= seq!['l', 'o', 'g']);
                if chars_equal(&ec, &gz) {
                    Ok(LogFormat::Gzip)
                } else if chars_equal(&ec, &lg) {
                    Ok(LogFormat::Plain)
                } else {
                    Err(LogError::UnsupportedExtension)
                }
            },
        }
    }
}

} // verus!

verus! {

/// The bytes of a log file's name, by which log managers are ordered
/// (the order of `String`: byte-wise lexicographic).
pub open spec fn file_key(m: LogManager) -> Seq<u8> {
    vstd::utf8::encode_utf8(m.log_file@)
}

/// Lexicographic order on byte sequences (a prefix comes first).
pub open spec fn bytes_le(a: Seq<u8>, b: Seq<u8>) -> bool
    decreases a.len(),
{
    if a.len() == 0 {
        true
    } else if b.len() == 0 {
        false
    } else if a[0] != b[0] {
        a[0] < b[0]
    } else {
        bytes_le(a.drop_first(), b.drop_first())
    }
}

/// Where `x` goes in `s`: after the leading entries whose key is at most
/// its own.
pub open spec fn upper_pos(s: Seq<LogManager>, x: LogManager) -> nat
    decreases s.len(),
{
    if s.len() == 0 {
        0
    } else if bytes_le(file_key(s[0]), file_key(x)) {
        1 + upper_pos(s.drop_first(), x)
    } else {
        0
    }
}

/// The log managers ordered by file name, those with equal names kept in
/// their original order.
pub open spec fn sorted_by_file(s: Seq<LogManager>) -> Seq<LogManager>
    decreases s.len(),
{
    if s.len() == 0 {
        s
    } else {
        let t = sorted_by_file(s.drop_last());
        t.insert(upper_pos(t, s.last()) as int, s.last())
    }
}

proof fn lemma_bytes_le_step(a: Seq<u8>, b: Seq<u8>, i: int)
    requires
        0 <= i < a.len(),
        i < b.len(),
        a[i] == b[i],
    ensures
        bytes_le(a.skip(i), b.skip(i)) == bytes_le(a.skip(i + 1), b.skip(i + 1)),
{
    assert(a.skip(i).drop_first() =~= a.skip(i + 1));
    assert(b.skip(i).drop_first() =~= b.skip(i + 1));
}

fn bytes_le_exec(a: &[u8], b: &[u8]) -> (res: bool)
    ensures
        res == bytes_le(a@, b@),
{
    let mut i: usize = 0;
    assert(a@.skip(0) =~= a@);
    assert(b@.skip(0) =~= b@);
    while i < a.len() && i < b.len()
        invariant
            i <= a.len(),
            i <= b.len(),
            bytes_le(a@, b@) == bytes_le(a@.skip(i as int), b@.skip(i as int)),
        decreases a.len() - i,
    {
        if a[i] != b[i] {
            return a[i] < b[i];
        }
        proof {
            lemma_bytes_le_step(a@, b@, i as int);
        }
        i = i + 1;
    }
    i == a.len()
}

fn file_le(a: &LogManager, b: &LogManager) -> (res: bool)
    ensures
        res == bytes_le(file_key(*a), file_key(*b)),
{
    bytes_le_exec(a.log_file.as_str().as_bytes(), b.log_file.as_str().as_bytes())
}

proof fn lemma_upper_pos_skip(s: Seq<LogManager>, x: LogManager, k: int)
    requires
        0 <= k < s.len(),
        bytes_le(file_key(s[k]), file_key(x)),
    ensures
        upper_pos(s.skip(k), x) == 1 + upper_pos(s.skip(k + 1), x),
{
    assert(s.skip(k).drop_first() =~= s.skip(k + 1));
}

/// Orders log managers by file name, as a stable sort by the name does.
pub fn sort_logs(logs: &mut Vec<LogManager>)
    ensures
        final(logs)@ == sorted_by_file(old(logs)@),
{
    let ghost orig = logs@;
    let n = logs.len();
    let mut out: Vec<LogManager> = Vec::new();
    let mut i: usize = 0;
    assert(orig.skip(0) =~= orig);
    assert(orig.take(0) =~= Seq::<LogManager>::empty());
    while i < n
        invariant
            n == orig.len(),
            i <= n,
            logs@ == orig.skip(i as int),
            out@ == sorted_by_file(orig.take(i as int)),
        decreases n - i,
    {
        let x = logs.remove(0);
        assert(x == orig[i as int]);
        assert(logs@ =~= orig.skip(i + 1));
        let mut pos: usize = 0;
        let mut scanning = true;
        assert(out@.skip(0) =~= out@);
        while scanning
            invariant
                pos <= out.len(),
                upper_pos(out@, x) == pos + upper_pos(out@.skip(pos as int), x),
                !scanning ==> upper_pos(out@.skip(pos as int), x) == 0,
            decreases out.len() - pos + (if scanning { 1int } else { 0int }),
        {
            if pos < out.len() && file_le(&out[pos], &x) {
                proof {
                    lemma_upper_pos_skip(out@, x, pos as int);
                }
                pos = pos + 1;
            } else {
                if pos == out.len() {
                    assert(out@.skip(pos as int).len() == 0);
                } else {
                    assert(out@.skip(pos as int)[0] == out@[pos as int]);
                }
                scanning = false;
            }
        }
        proof {
            let t = orig.take(i + 1);
            assert(t.drop_last() =~= orig.take(i as int));
            assert(t.last() == x);
        }
        out.insert(pos, x);
        i = i + 1;
    }
    assert(orig.take(n as int) =~= orig);
    *logs = out;
}

} // verus!

verus! {

proof fn lemma_bytes_le_total(a: Seq<u8>, b: Seq<u8>)
    ensures
        bytes_le(a, b) || bytes_le(b, a),
    decreases a.len(),
{
    if a.len() > 0 && b.len() > 0 && a[0] == b[0] {
        lemma_bytes_le_total(a.drop_first(), b.drop_first());
    }
}

proof fn lemma_bytes_le_trans(a: Seq<u8>, b: Seq<u8>, c: Seq<u8>)
    requires
        bytes_le(a, b),
        bytes_le(b, c),
    ensures
        bytes_le(a, c),
    decreases a.len(),
{
    if a.len() > 0 && b.len() > 0 && c.len() > 0 && a[0] == b[0] && b[0] == c[0] {
        lemma_bytes_le_trans(a.drop_first(), b.drop_first(), c.drop_first());
    }
}

/// Whether `s` is ordered by file name.
pub open spec fn ordered_by_file(s: Seq<LogManager>) -> bool {
    forall|i: int, j: int| 0 <= i < j < s.len() ==> bytes_le(file_key(s[i]), file_key(s[j]))
}

proof fn lemma_upper_pos(t: Seq<LogManager>, x: LogManager)
    requires
        ordered_by_file(t),
    ensures
        upper_pos(t, x) <= t.len(),
        forall|i: int| 0 <= i < upper_pos(t, x) ==> bytes_le(file_key(t[i]), file_key(x)),
        forall|i: int| upper_pos(t, x) <= i < t.len() ==> !bytes_le(file_key(t[i]), file_key(x)),
    decreases t.len(),
{
    if t.len() > 0 {
        let p = upper_pos(t, x);
        if bytes_le(file_key(t[0]), file_key(x)) {
            let d = t.drop_first();
            assert forall|i: int, j: int| 0 <= i < j < d.len() implies bytes_le(
                file_key(d[i]),
                file_key(d[j]),
            ) by {
                assert(d[i] == t[i + 1] && d[j] == t[j + 1]);
            }
            lemma_upper_pos(d, x);
            assert forall|i: int| 0 <= i < p implies bytes_le(file_key(t[i]), file_key(x)) by {
                if i > 0 {
                    assert(t[i] == d[i - 1]);
                }
            }
            assert forall|i: int| p <= i < t.len() implies !bytes_le(file_key(t[i]), file_key(x)) by {
                assert(t[i] == d[i - 1]);
            }
        } else {
            assert forall|i: int| 0 <= i < t.len() implies !bytes_le(file_key(t[i]), file_key(x)) by {
                if i > 0 && bytes_le(file_key(t[i]), file_key(x)) {
                    lemma_bytes_le_trans(file_key(t[0]), file_key(t[i]), file_key(x));
                }
            }
        }
    }
}

/// Sorting orders the logs by file name and keeps exactly the logs it was
/// given, each as often as before.
pub proof fn sorting_orders_and_keeps_logs(s: Seq<LogManager>)
    ensures
        ordered_by_file(sorted_by_file(s)),
        sorted_by_file(s).to_multiset() == s.to_multiset(),
    decreases s.len(),
{
    broadcast use vstd::seq_lib::to_multiset_build, vstd::seq_lib::to_multiset_insert;

    if s.len() > 0 {
        let t = sorted_by_file(s.drop_last());
        let x = s.last();
        sorting_orders_and_keeps_logs(s.drop_last());
        lemma_upper_pos(t, x);
        let p = upper_pos(t, x) as int;
        let r = t.insert(p, x);
        assert(r == sorted_by_file(s));
        assert forall|i: int, j: int| 0 <= i < j < r.len() implies bytes_le(
            file_key(r[i]),
            file_key(r[j]),
        ) by {
            if j < p {
                assert(r[i] == t[i] && r[j] == t[j]);
            } else if j == p {
                assert(r[i] == t[i]);
            } else if i < p {
                assert(r[i] == t[i] && r[j] == t[j - 1]);
                lemma_bytes_le_total(file_key(t[j - 1]), file_key(x));
                lemma_bytes_le_trans(file_key(t[i]), file_key(x), file_key(t[j - 1]));
            } else if i == p {
                assert(r[j] == t[j - 1]);
                lemma_bytes_le_total(file_key(t[j - 1]), file_key(x));
            } else {
                assert(r[i] == t[i - 1] && r[j] == t[j - 1]);
            }
        }
        assert(s.drop_last().push(x) =~= s);
    }
}

} // verus!

verus! {

/// The data of the first gzip member in `bytes`, as
/// `flate2::read::GzDecoder` reads it to the end; `None` where it reports
/// an error.
pub uninterp spec fn gzip_decoded(bytes: Seq<u8>) -> Option<Seq<u8>>;

/// `flate2::read::GzDecoder::new(bytes)` read to the end. What it returns
/// is named `gzip_decoded` of the bytes; an error of the decoder becomes
/// `InvalidGzip`.
#[verifier::external_body]
fn gunzip(bytes: &[u8]) -> (res: Result<Vec<u8>, LogError>)
    ensures
        res is Ok <==> gzip_decoded(bytes@) is Some,
        res matches Ok(v) ==> gzip_decoded(bytes@) == Some(v@),
        res matches Err(e) ==> e == LogError::InvalidGzip,
{
    let mut out = Vec::new();
    match std::io::Read::read_to_end(&mut flate2::read::GzDecoder::new(bytes), &mut out) {
        Ok(_) => Ok(out),
        Err(_) => Err(LogError::InvalidGzip),
    }
}

/// The bytes of a log's text: the file's bytes for a plain log, their
/// decompression for a gzip log.
pub open spec fn log_bytes(format: LogFormat, raw: Seq<u8>) -> Option<Seq<u8>> {
    match format {
        LogFormat::Plain => Some(raw),
        LogFormat::Gzip => gzip_decoded(raw),
    }
}

/// The censored output of a log file, given the file's bytes, for the given
/// login, full name and accounts. Fails only on invalid gzip data.
pub fn output_of(
    format: LogFormat,
    raw: &[u8],
    username: &str,
    realname: &str,
    credentials: &Vec<MinecraftCredentials>,
) -> (res: Result<LogOutput, LogError>)
    ensures
        res is Ok <==> log_bytes(format, raw@) is Some,
        res is Err ==> res == Err::<LogOutput, LogError>(LogError::InvalidGzip),
        res matches Ok(o) ==> o@ == censored(
            utf8_lossy(log_bytes(format, raw@).unwrap()),
            username@,
            realname@,
            credentials@,
        ),
        res matches Ok(o) ==> (vstd::utf8::valid_utf8(log_bytes(format, raw@).unwrap()) ==> o@
            == censored(
            vstd::utf8::decode_utf8(log_bytes(format, raw@).unwrap()),
            username@,
            realname@,
            credentials@,
        )),
{
    match format {
        LogFormat::Plain => {
            let text = decode_lossy(raw);
            Ok(LogOutput::censor_secrets_with(text, username, realname, credentials))
        },
        LogFormat::Gzip => {
            match gunzip(raw) {
                Ok(bytes) => {
                    let text = decode_lossy(bytes.as_slice());
                    Ok(LogOutput::censor_secrets_with(text, username, realname, credentials))
                },
                Err(e) => Err(e),
            }
        },
    }
}

/// The censored output of a log file, given the file's bytes, for the
/// current user and the given accounts. Fails only on invalid gzip data.
pub fn read_output(format: LogFormat, raw: &[u8], credentials: &Vec<MinecraftCredentials>) -> (res:
    Result<LogOutput, LogError>)
    ensures
        res is Ok <==> log_bytes(format, raw@) is Some,
        res is Err ==> res == Err::<LogOutput, LogError>(LogError::InvalidGzip),
        res matches Ok(o) ==> exists|username: Seq<char>, realname: Seq<char>|
            #[trigger] censored(
                utf8_lossy(log_bytes(format, raw@).unwrap()),
                username,
                realname,
                credentials@,
            ) == o@,
{
    let username = current_username();
    let realname = current_realname();
    let res = output_of(format, raw, username.as_str(), realname.as_str(), credentials);
    match &res {
        Ok(o) => {
            assert(censored(
                utf8_lossy(log_bytes(format, raw@).unwrap()),
                username@,
                realname@,
                credentials@,
            ) == o@);
        },
        Err(_) => {},
    }
    res
}

impl LogManager {
    /// Whether a log manager is made with its output: unless `clear` is
    /// asked for.
    pub fn keeps_output(clear: Option<bool>) -> (res: bool)
        ensures
            res == (clear != Some(true)),
    {
        match clear {
            Some(true) => false,
            _ => true,
        }
    }
}

} // verus!

verus! {

proof fn lemma_bytes_le_refl(a: Seq<u8>)
    ensures
        bytes_le(a, a),
    decreases a.len(),
{
    if a.len() > 0 {
        lemma_bytes_le_refl(a.drop_first());
    }
}

/// Whether a log manager's file name has the bytes `k`.
pub open spec fn named(k: Seq<u8>) -> spec_fn(LogManager) -> bool {
    |m: LogManager| file_key(m) == k
}

proof fn lemma_filter_none(s: Seq<LogManager>, pred: spec_fn(LogManager) -> bool)
    requires
        forall|i: int| 0 <= i < s.len() ==> !pred(#[trigger] s[i]),
    ensures
        s.filter(pred) == Seq::<LogManager>::empty(),
    decreases s.len(),
{
    reveal(Seq::filter);
    if s.len() > 0 {
        assert forall|i: int| 0 <= i < s.drop_last().len() implies !pred(#[trigger] s.drop_last()[i]) by {
            assert(s.drop_last()[i] == s[i]);
        }
        lemma_filter_none(s.drop_last(), pred);
        assert(!pred(s[s.len() - 1]));
    }
}

/// Sorting is stable: the logs that share a file name keep their order.
pub proof fn sorting_is_stable(s: Seq<LogManager>, k: Seq<u8>)
    ensures
        sorted_by_file(s).filter(named(k)) == s.filter(named(k)),
    decreases s.len(),
{
    reveal(Seq::filter);
    broadcast use Seq::filter_distributes_over_add;

    if s.len() > 0 {
        let t = sorted_by_file(s.drop_last());
        let x = s.last();
        sorting_orders_and_keeps_logs(s.drop_last());
        sorting_is_stable(s.drop_last(), k);
        lemma_upper_pos(t, x);
        let p = upper_pos(t, x) as int;
        let r = t.insert(p, x);
        assert(r =~= t.take(p) + seq![x] + t.skip(p));
        assert(t =~= t.take(p) + t.skip(p));
        let f = named(k);
        assert(seq![x].filter(f) == (if f(x) { seq![x] } else { Seq::<LogManager>::empty() })) by {
            reveal(Seq::filter);
            assert(seq![x].drop_last() =~= Seq::<LogManager>::empty());
            assert(Seq::<LogManager>::empty().filter(f) =~= Seq::<LogManager>::empty());
            assert(seq![x].last() == x);
            assert(Seq::<LogManager>::empty().push(x) =~= seq![x]);
        }
        if f(x) {
            lemma_bytes_le_refl(file_key(x));
            assert forall|i: int| 0 <= i < t.skip(p).len() implies !f(#[trigger] t.skip(p)[i]) by {
                assert(t.skip(p)[i] == t[p + i]);
                assert(!bytes_le(file_key(t[p + i]), file_key(x)));
            }
            lemma_filter_none(t.skip(p), f);
            assert(r.filter(f) =~= t.take(p).filter(f) + seq![x]);
            assert(t.filter(f) =~= t.take(p).filter(f));
        } else {
            assert(r.filter(f) =~= t.take(p).filter(f) + t.skip(p).filter(f));
        }
    }
}

} // verus!

verus! {

/// `a` is `b` or begins it.
pub open spec fn is_prefix(a: Seq<u8>, b: Seq<u8>) -> bool {
    a.len() <= b.len() && a == b.take(a.len() as int)
}

/// At the first place where `a` and `b` differ, `a` holds the smaller byte.
pub open spec fn smaller_at_first_difference(a: Seq<u8>, b: Seq<u8>) -> bool {
    exists|i: int|
        0 <= i < a.len() && i < b.len() && a.take(i) == b.take(i) && #[trigger] a[i] < b[i]
}

/// The order of log file names is that of `String`: lexicographic on the
/// bytes, where a name comes first if it begins the other or has the
/// smaller byte at the first place where they differ.
pub proof fn bytes_le_is_lexicographic(a: Seq<u8>, b: Seq<u8>)
    ensures
        bytes_le(a, b) <==> is_prefix(a, b) || smaller_at_first_difference(a, b),
    decreases a.len(),
{
    if a.len() == 0 {
        assert(a =~= b.take(0));
    } else if b.len() == 0 {
        assert(!smaller_at_first_difference(a, b));
    } else if a[0] != b[0] {
        if a[0] < b[0] {
            assert(a.take(0) =~= b.take(0));
            assert(smaller_at_first_difference(a, b));
        } else {
            assert(!smaller_at_first_difference(a, b)) by {
                if smaller_at_first_difference(a, b) {
                    let i = choose|i: int|
                        0 <= i < a.len() && i < b.len() && a.take(i) == b.take(i) && #[trigger] a[i]
                            < b[i];
                    if i > 0 {
                        assert(a.take(i)[0] == b.take(i)[0]);
                    }
                }
            }
        }
        assert(!is_prefix(a, b)) by {
            if is_prefix(a, b) {
                assert(b.take(a.len() as int)[0] == b[0]);
            }
        }
    } else {
        let a1 = a.drop_first();
        let b1 = b.drop_first();
        bytes_le_is_lexicographic(a1, b1);
        assert(is_prefix(a, b) == is_prefix(a1, b1)) by {
            if is_prefix(a, b) {
                assert(a1 =~= b1.take(a1.len() as int));
            }
            if is_prefix(a1, b1) {
                assert forall|k: int| 0 <= k < a.len() implies a[k] == b.take(a.len() as int)[k] by {
                    if k > 0 {
                        assert(a[k] == a1[k - 1]);
                        assert(a1[k - 1] == b1.take(a1.len() as int)[k - 1]);
                        assert(b1[k - 1] == b[k]);
                    }
                }
                assert(a =~= b.take(a.len() as int));
            }
        }
        assert(smaller_at_first_difference(a, b) == smaller_at_first_difference(a1, b1)) by {
            if smaller_at_first_difference(a, b) {
                let i = choose|i: int|
                    0 <= i < a.len() && i < b.len() && a.take(i) == b.take(i) && #[trigger] a[i]
                        < b[i];
                assert(i > 0);
                assert(a1.take(i - 1) =~= a.take(i).drop_first());
                assert(b1.take(i - 1) =~= b.take(i).drop_first());
                assert(a1[i - 1] == a[i]);
                assert(b1[i - 1] == b[i]);
            }
            if smaller_at_first_difference(a1, b1) {
                let i = choose|i: int|
                    0 <= i < a1.len() && i < b1.len() && a1.take(i) == b1.take(i) && #[trigger] a1[i]
                        < b1[i];
                assert(a.take(i + 1) =~= seq![a[0]] + a1.take(i));
                assert(b.take(i + 1) =~= seq![b[0]] + b1.take(i));
                assert(a[i + 1] == a1[i]);
                assert(b[i + 1] == b1[i]);
            }
        }
    }
}

} // verus!
