//! What an SSH connection is opened with, and the trust-on-first-use check of
//! a server's host key against the lines of `known_hosts`.
use vstd::prelude::*;

use vstd::utf8::{decode_utf8, valid_utf8};

use crate::models::host::Host;
use crate::text::{
    chars_eq, ends_line, is_word, lemma_lines_append, lemma_lines_single, lemma_words_lead,
    lemma_words_single, lines, lines_chars, to_chars, trim, trim_chars, views, words, words_chars,
};

verus! {

#[derive(Clone, Debug)]
pub enum SshAuth {
    Password { password: String },
    Key { path: String, passphrase: Option<String> },
}

#[derive(Clone, Debug)]
pub struct SshConfig {
    pub host: String,
    pub port: u16,
    pub username: String,
    pub auth: SshAuth,
}

impl SshConfig {
    /// Connect to the host's address and port as its user, with a password.
    pub fn from_host_password(host: &Host, password: &str) -> (c: Self)
        ensures
            c.host@ == host.address@,
            c.port == host.port,
            c.username@ == host.username@,
            c.auth matches SshAuth::Password { password: p } && p@ == password@,
    {
        Self {
            host: host.address.clone(),
            port: host.port,
            username: host.username.clone(),
            auth: SshAuth::Password { password: password.to_owned() },
        }
    }
}

/// What a command run over SSH printed, and how it exited.
#[derive(Clone, Debug)]
pub struct SshResult {
    pub stdout: String,
    pub stderr: String,
    pub exit_code: Option<u32>,
}

/// What `String::from_utf8_lossy` reads from bytes.
pub uninterp spec fn lossy_text(bytes: Seq<u8>) -> Seq<char>;

/// `String::from_utf8_lossy(bytes).into_owned()`. Claimed: the text is
/// `lossy_text` of the bytes, and for valid UTF-8 it is their decoding (the
/// documentation: valid UTF-8 comes back as it is).
#[verifier::external_body]
pub(crate) fn utf8_lossy(bytes: &[u8]) -> (s: String)
    ensures
        s@ == lossy_text(bytes@),
        valid_utf8(bytes@) ==> s@ == decode_utf8(bytes@),
{
    String::from_utf8_lossy(bytes).into_owned()
}

/// A message of an SSH channel, as far as a command's result cares.
#[derive(Clone, Debug)]
pub enum ChannelEvent {
    /// Output on stdout.
    Data(Vec<u8>),
    /// Output on another stream (stderr).
    ExtendedData(Vec<u8>),
    /// The command's exit status.
    ExitStatus(u32),
    /// Anything else.
    Other,
}

impl SshResult {
    /// Nothing printed yet, no exit status.
    pub fn empty() -> (r: Self)
        ensures
            r.stdout@.len() == 0,
            r.stderr@.len() == 0,
            r.exit_code is None,
    {
        SshResult { stdout: String::new(), stderr: String::new(), exit_code: None }
    }

    /// Take in one channel message: output is decoded (lossily, chunk by
    /// chunk) and appended to its stream; an exit status is kept.
    pub fn record(&mut self, event: &ChannelEvent)
        ensures
            match *event {
                ChannelEvent::Data(d) => {
                    &&& final(self).stdout@ == old(self).stdout@ + lossy_text(d@)
                    &&& final(self).stderr@ == old(self).stderr@
                    &&& final(self).exit_code == old(self).exit_code
                },
                ChannelEvent::ExtendedData(d) => {
                    &&& final(self).stdout@ == old(self).stdout@
                    &&& final(self).stderr@ == old(self).stderr@ + lossy_text(d@)
                    &&& final(self).exit_code == old(self).exit_code
                },
                ChannelEvent::ExitStatus(c) => {
                    &&& final(self).stdout@ == old(self).stdout@
                    &&& final(self).stderr@ == old(self).stderr@
                    &&& final(self).exit_code == Some(c)
                },
                ChannelEvent::Other => {
                    &&& final(self).stdout@ == old(self).stdout@
                    &&& final(self).stderr@ == old(self).stderr@
                    &&& final(self).exit_code == old(self).exit_code
                },
            },
    {
        match event {
            ChannelEvent::Data(d) => {
                let t = utf8_lossy(d.as_slice());
                self.stdout.append(t.as_str());
            },
            ChannelEvent::ExtendedData(d) => {
                let t = utf8_lossy(d.as_slice());
                self.stderr.append(t.as_str());
            },
            ChannelEvent::ExitStatus(c) => {
                self.exit_code = Some(*c);
            },
            ChannelEvent::Other => {},
        }
    }
}

// ---------------------------------------------------------------------------
// Decimal text
// ---------------------------------------------------------------------------

pub open spec fn digit_char(d: nat) -> char {
    "0123456789"@[d as int]
}

/// `n` written in decimal, as `Display` writes an unsigned integer.
pub open spec fn decimal(n: nat) -> Seq<char>
    decreases n,
{
    if n < 10 {
        seq![digit_char(n)]
    } else {
        decimal(n / 10) + seq![digit_char(n % 10)]
    }
}

fn digit_str(d: u64) -> (s: &'static str)
    requires
        d < 10,
    ensures
        s@ == seq![digit_char(d as nat)],
{
    let digits = "0123456789";
    proof {
        reveal_strlit("0123456789");
    }
    let s = digits.substring_char(d as usize, d as usize + 1);
    assert(s@ =~= seq![digit_char(d as nat)]);
    s
}

/// `n` written in decimal.
pub fn decimal_string(n: u64) -> (s: String)
    ensures
        s@ == decimal(n as nat),
    decreases n,
{
    if n < 10 {
        String::from_str(digit_str(n))
    } else {
        let mut s = decimal_string(n / 10);
        s.append(digit_str(n % 10));
        s
    }
}

// ---------------------------------------------------------------------------
// Host keys
// ---------------------------------------------------------------------------

/// The host and port that a server's key is recorded under.
#[derive(Clone, Debug)]
pub struct SshHandler {
    host: String,
    port: u16,
}

/// How `known_hosts` names a server: its host alone on port 22, else
/// `[host]:port`.
pub open spec fn host_id(host: Seq<char>, port: u16) -> Seq<char> {
    if port != 22 {
        "["@ + host + "]:"@ + decimal(port as nat)
    } else {
        host
    }
}

impl SshHandler {
    pub fn new(host: String, port: u16) -> (h: Self)
        ensures
            h.host() == host@,
            h.port() == port,
    {
        Self { host, port }
    }

    pub closed spec fn host(&self) -> Seq<char> {
        self.host@
    }

    pub closed spec fn port(&self) -> u16 {
        self.port
    }

    pub fn host_identifier(&self) -> (s: String)
        ensures
            s@ == host_id(self.host(), self.port()),
    {
        if self.port != 22 {
            let s = String::from_str("[").concat(self.host.as_str()).concat("]:");
            s.concat(decimal_string(self.port as u64).as_str())
        } else {
            self.host.clone()
        }
    }
}

/// Why a connection ended, as the SSH client reports it: the server's
/// disconnect message, or the text of the error that broke the connection.
#[derive(Clone, Debug)]
pub enum DisconnectReason {
    ReceivedDisconnect(String),
    Error(String),
}

pub open spec fn disconnect_text(reason: DisconnectReason) -> Seq<char> {
    match reason {
        DisconnectReason::ReceivedDisconnect(m) => "SSH server disconnected: "@ + m@,
        DisconnectReason::Error(e) => "SSH connection error: "@ + e@,
    }
}

/// The message reported to whoever listens for the end of a connection.
pub fn disconnect_message(reason: &DisconnectReason) -> (s: String)
    ensures
        s@ == disconnect_text(*reason),
{
    match reason {
        DisconnectReason::ReceivedDisconnect(m) => String::from_str(
            "SSH server disconnected: ",
        ).concat(m.as_str()),
        DisconnectReason::Error(e) => String::from_str("SSH connection error: ").concat(
            e.as_str(),
        ),
    }
}

/// What `known_hosts` says of a server's key.
#[derive(Clone, Copy, Debug, PartialEq, Eq, Structural)]
pub enum HostKeyCheck {
    /// The server is recorded with this key.
    Known,
    /// The server is recorded with another key.
    Changed,
    /// The server is not recorded.
    Unknown,
}

/// The first line of at least three words whose first word is the server's
/// name decides: the same key type and key is `Known`, anything else
/// `Changed`; no such line is `Unknown`.
pub open spec fn check_lines(
    ls: Seq<Seq<char>>,
    id: Seq<char>,
    key_type: Seq<char>,
    key: Seq<char>,
) -> HostKeyCheck
    decreases ls.len(),
{
    if ls.len() == 0 {
        HostKeyCheck::Unknown
    } else {
        let w = words(ls[0]);
        if w.len() >= 3 && w[0] == id {
            if w[1] == key_type && w[2] == key {
                HostKeyCheck::Known
            } else {
                HostKeyCheck::Changed
            }
        } else {
            check_lines(ls.drop_first(), id, key_type, key)
        }
    }
}

pub open spec fn known_hosts_check(
    content: Seq<char>,
    id: Seq<char>,
    key_type: Seq<char>,
    key: Seq<char>,
) -> HostKeyCheck {
    check_lines(lines(content), id, key_type, key)
}

/// Look the server's key up in the text of `known_hosts`.
pub fn check_known_host(content: &str, host_identifier: &str, key_type: &str, key: &str) -> (r:
    HostKeyCheck)
    ensures
        r == known_hosts_check(content@, host_identifier@, key_type@, key@),
{
    let ls = lines_chars(&to_chars(content));
    let ghost all = lines(content@);
    let id = to_chars(host_identifier);
    let kt = to_chars(key_type);
    let kb = to_chars(key);
    let mut i: usize = 0;
    assert(all.skip(0) =~= all);
    while i < ls.len()
        invariant
            i <= ls.len(),
            views(ls@) == all,
            id@ == host_identifier@,
            kt@ == key_type@,
            kb@ == key@,
            known_hosts_check(content@, host_identifier@, key_type@, key@) == check_lines(
                all.skip(i as int),
                id@,
                kt@,
                kb@,
            ),
        decreases ls.len() - i,
    {
        assert(all.skip(i as int)[0] == ls@[i as int]@);
        let parts = words_chars(&ls[i]);
        if parts.len() >= 3 && chars_eq(&parts[0], &id) {
            assert(views(parts@)[1] == parts@[1]@);
            assert(views(parts@)[2] == parts@[2]@);
            if chars_eq(&parts[1], &kt) && chars_eq(&parts[2], &kb) {
                return HostKeyCheck::Known;
            } else {
                return HostKeyCheck::Changed;
            }
        }
        assert(all.skip(i as int).drop_first() =~= all.skip(i + 1));
        i += 1;
    }
    assert(all.skip(i as int) =~= Seq::<Seq<char>>::empty());
    HostKeyCheck::Unknown
}

/// The `known_hosts` line that records a server's key: name, key type and
/// key, separated by single spaces.
pub open spec fn host_entry(id: Seq<char>, key_type: Seq<char>, key: Seq<char>) -> Seq<char> {
    id + " "@ + key_type + " "@ + key
}

pub fn known_host_entry(host_identifier: &str, key_type: &str, key: &str) -> (s: String)
    ensures
        s@ == host_entry(host_identifier@, key_type@, key@),
{
    String::from_str(host_identifier).concat(" ").concat(key_type).concat(" ").concat(key)
}

/// Once `check_lines` finds nothing in some lines, it decides by what follows.
proof fn lemma_check_lines_append(
    ls: Seq<Seq<char>>,
    more: Seq<Seq<char>>,
    id: Seq<char>,
    key_type: Seq<char>,
    key: Seq<char>,
)
    requires
        check_lines(ls, id, key_type, key) == HostKeyCheck::Unknown,
    ensures
        check_lines(ls + more, id, key_type, key) == check_lines(more, id, key_type, key),
    decreases ls.len(),
{
    if ls.len() == 0 {
        assert(ls + more =~= more);
    } else {
        assert((ls + more)[0] == ls[0]);
        assert((ls + more).drop_first() =~= ls.drop_first() + more);
        lemma_check_lines_append(ls.drop_first(), more, id, key_type, key);
    }
}

/// Trust on first use: when `known_hosts` does not record a server and its
/// entry is appended on a line of its own, the same key is then `Known`.
/// (The server's name, key type and key are single words, and the file
/// ended its last line.)
pub proof fn law_appended_key_is_known(
    content: Seq<char>,
    id: Seq<char>,
    key_type: Seq<char>,
    key: Seq<char>,
)
    requires
        known_hosts_check(content, id, key_type, key) == HostKeyCheck::Unknown,
        ends_line(content),
        is_word(id),
        is_word(key_type),
        is_word(key),
    ensures
        known_hosts_check(content + host_entry(id, key_type, key) + seq!['\n'], id, key_type, key)
            == HostKeyCheck::Known,
{
    let e = host_entry(id, key_type, key);
    reveal_strlit(" ");
    assert(e =~= id + seq![' '] + (key_type + seq![' '] + key));
    lemma_words_lead(id, key_type + seq![' '] + key);
    lemma_words_lead(key_type, key);
    lemma_words_single(key);
    assert(words(e) =~= seq![id, key_type, key]);
    assert forall|i: int| 0 <= i < e.len() implies #[trigger] e[i] != '\n' by {
        if i < id.len() {
            assert(e[i] == id[i]);
        } else if i == id.len() {
        } else if i < id.len() + 1 + key_type.len() {
            assert(e[i] == key_type[i - id.len() - 1]);
        } else if i == id.len() + 1 + key_type.len() {
        } else {
            assert(e[i] == key[i - id.len() - 2 - key_type.len()]);
        }
    }
    assert(e.last() == key.last());
    lemma_lines_single(e);
    assert(content + e + seq!['\n'] =~= content + (e + seq!['\n']));
    lemma_lines_append(content, e + seq!['\n']);
    lemma_check_lines_append(lines(content), seq![e], id, key_type, key);
}

/// Once a server's entry is appended to a `known_hosts` that did not record
/// it, the server is recognised by it: the same key type and key are
/// `Known`, any other key `Changed`. (The server's name, key type and key
/// are single words, and the file ended its last line.)
pub proof fn law_recorded_server_key_decides(
    content: Seq<char>,
    id: Seq<char>,
    key_type: Seq<char>,
    key: Seq<char>,
    offered_type: Seq<char>,
    offered_key: Seq<char>,
)
    requires
        known_hosts_check(content, id, offered_type, offered_key) == HostKeyCheck::Unknown,
        ends_line(content),
        is_word(id),
        is_word(key_type),
        is_word(key),
    ensures
        known_hosts_check(
            content + host_entry(id, key_type, key) + seq!['\n'],
            id,
            offered_type,
            offered_key,
        ) == if offered_type == key_type && offered_key == key {
            HostKeyCheck::Known
        } else {
            HostKeyCheck::Changed
        },
{
    let e = host_entry(id, key_type, key);
    reveal_strlit(" ");
    assert(e =~= id + seq![' '] + (key_type + seq![' '] + key));
    lemma_words_lead(id, key_type + seq![' '] + key);
    lemma_words_lead(key_type, key);
    lemma_words_single(key);
    assert(words(e) =~= seq![id, key_type, key]);
    assert forall|i: int| 0 <= i < e.len() implies #[trigger] e[i] != '\n' by {
        if i < id.len() {
            assert(e[i] == id[i]);
        } else if i == id.len() {
        } else if i < id.len() + 1 + key_type.len() {
            assert(e[i] == key_type[i - id.len() - 1]);
        } else if i == id.len() + 1 + key_type.len() {
        } else {
            assert(e[i] == key[i - id.len() - 2 - key_type.len()]);
        }
    }
    assert(e.last() == key.last());
    lemma_lines_single(e);
    assert(content + e + seq!['\n'] =~= content + (e + seq!['\n']));
    lemma_lines_append(content, e + seq!['\n']);
    lemma_check_lines_append(lines(content), seq![e], id, offered_type, offered_key);
}

/// What the client does with a server's key.
#[derive(Clone, Copy, Debug, PartialEq, Eq, Structural)]
pub enum KeyVerdict {
    /// Accept the key.
    Accept,
    /// Accept the key and append the server's entry to `known_hosts`.
    AcceptAndRecord,
    /// Refuse the key: the server is recorded with another one.
    Reject,
}

/// Trust on first use: a server that `known_hosts` records is accepted
/// with the recorded key only; one that it does not record, or a missing
/// (unreadable) `known_hosts`, is accepted and recorded.
pub open spec fn key_verdict(
    known_hosts: Option<Seq<char>>,
    id: Seq<char>,
    key_type: Seq<char>,
    key: Seq<char>,
) -> KeyVerdict {
    match known_hosts {
        None => KeyVerdict::AcceptAndRecord,
        Some(c) => match known_hosts_check(c, id, key_type, key) {
            HostKeyCheck::Known => KeyVerdict::Accept,
            HostKeyCheck::Changed => KeyVerdict::Reject,
            HostKeyCheck::Unknown => KeyVerdict::AcceptAndRecord,
        },
    }
}

/// `known_hosts` after the server's entry is appended on a line of its own
/// (to a missing file: the file then holds that line alone).
pub open spec fn with_entry(
    known_hosts: Option<Seq<char>>,
    id: Seq<char>,
    key_type: Seq<char>,
    key: Seq<char>,
) -> Seq<char> {
    let before = match known_hosts {
        Some(c) => c,
        None => Seq::<char>::empty(),
    };
    before + host_entry(id, key_type, key) + seq!['\n']
}

/// The decision on a server's key, given the text of `known_hosts` (`None`
/// where it could not be read).
pub fn host_key_verdict(
    known_hosts: Option<&str>,
    host_identifier: &str,
    key_type: &str,
    key: &str,
) -> (v: KeyVerdict)
    ensures
        v == key_verdict(
            match known_hosts {
                Some(c) => Some(c@),
                None => None,
            },
            host_identifier@,
            key_type@,
            key@,
        ),
{
    match known_hosts {
        None => KeyVerdict::AcceptAndRecord,
        Some(c) => match check_known_host(c, host_identifier, key_type, key) {
            HostKeyCheck::Known => KeyVerdict::Accept,
            HostKeyCheck::Changed => KeyVerdict::Reject,
            HostKeyCheck::Unknown => KeyVerdict::AcceptAndRecord,
        },
    }
}

/// Trust on first use, over two connections: a key that is accepted and
/// recorded is accepted, without being recorded again, the next time the
/// server presents it. (The server's name, key type and key are single
/// words, and an existing `known_hosts` ended its last line.)
pub proof fn law_recorded_key_is_accepted(
    known_hosts: Option<Seq<char>>,
    id: Seq<char>,
    key_type: Seq<char>,
    key: Seq<char>,
)
    requires
        key_verdict(known_hosts, id, key_type, key) == KeyVerdict::AcceptAndRecord,
        known_hosts matches Some(c) ==> ends_line(c),
        is_word(id),
        is_word(key_type),
        is_word(key),
    ensures
        key_verdict(Some(with_entry(known_hosts, id, key_type, key)), id, key_type, key)
            == KeyVerdict::Accept,
{
    let c = match known_hosts {
        Some(c) => c,
        None => Seq::<char>::empty(),
    };
    law_appended_key_is_known(c, id, key_type, key);
}

/// The reply of `echo tianxuan-pong`, once trimmed, is exactly that word.
pub open spec fn is_pong_reply(stdout: Seq<char>) -> bool {
    trim(stdout) == "tianxuan-pong"@
}

pub fn is_pong(stdout: &str) -> (b: bool)
    ensures
        b == is_pong_reply(stdout@),
{
    chars_eq(&trim_chars(&to_chars(stdout)), &to_chars("tianxuan-pong"))
}

} // verus!
