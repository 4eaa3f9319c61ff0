//! Hosts as rows of the `hosts` table: what a host is written as, and what a
//! row is read back as. The statements that move rows live with the database.
use vstd::prelude::*;

use crate::models::host::{AuthType, Host, HostView};
use crate::text::{chars_eq, to_chars};

verus! {

#[verifier::external_type_specification]
#[verifier::external_body]
pub struct ExJsonError(serde_json::Error);

/// A lower-case hexadecimal digit of `n < 16`.
pub open spec fn hex_digit(n: nat) -> char {
    "0123456789abcdef"@[n as int]
}

/// A character inside a JSON string as `serde_json` writes it: `"` and `\`
/// escaped with a backslash, the control characters with a short escape
/// where JSON has one and as `\u00XX` otherwise, everything else as it is.
pub open spec fn json_char(c: char) -> Seq<char> {
    if c == '"' {
        seq!['\\', '"']
    } else if c == '\\' {
        seq!['\\', '\\']
    } else if c == '\u{8}' {
        seq!['\\', 'b']
    } else if c == '\t' {
        seq!['\\', 't']
    } else if c == '\n' {
        seq!['\\', 'n']
    } else if c == '\u{c}' {
        seq!['\\', 'f']
    } else if c == '\r' {
        seq!['\\', 'r']
    } else if (c as u32) < 0x20 {
        seq!['\\', 'u', '0', '0', hex_digit((c as u32 / 16) as nat), hex_digit((c as u32 % 16) as nat)]
    } else {
        seq![c]
    }
}

/// The escaped characters of a string.
pub open spec fn json_chars(s: Seq<char>) -> Seq<char>
    decreases s.len(),
{
    if s.len() == 0 {
        Seq::empty()
    } else {
        json_char(s[0]) + json_chars(s.drop_first())
    }
}

/// A JSON string: the escaped characters between quotes.
pub open spec fn json_string(s: Seq<char>) -> Seq<char> {
    seq!['"'] + json_chars(s) + seq!['"']
}

/// The strings of a list as JSON strings, separated by commas.
pub open spec fn json_items(items: Seq<Seq<char>>) -> Seq<char>
    decreases items.len(),
{
    if items.len() == 0 {
        Seq::empty()
    } else if items.len() == 1 {
        json_string(items[0])
    } else {
        json_items(items.drop_last()) + seq![','] + json_string(items.last())
    }
}

/// What `serde_json::to_string` writes for a list of strings: the items
/// between square brackets, with no spaces.
pub open spec fn json_of_strings(items: Seq<Seq<char>>) -> Seq<char> {
    seq!['['] + json_items(items) + seq![']']
}

/// What `serde_json::from_str::<Vec<String>>` reads from a text (`None`: an error).
pub uninterp spec fn strings_of_json(text: Seq<char>) -> Option<Seq<Seq<char>>>;

/// `serde_json::to_string(&Vec<String>)`. Claimed: it succeeds (its documented
/// failures are a failing `Serialize` impl and maps with non-string keys,
/// neither of which a list of strings has); the text is `json_of_strings` of
/// the items, as its compact formatter and escape table write it; and
/// `serde_json::from_str` reads that text back as the items.
#[verifier::external_body]
fn json_encode_strings(items: &Vec<String>) -> (r: Result<String, serde_json::Error>)
    ensures
        r is Ok,
        r matches Ok(s) ==> s@ == json_of_strings(items.deep_view()),
        r matches Ok(s) ==> strings_of_json(s@) == Some(items.deep_view()),
{
    serde_json::to_string(items)
}

/// `serde_json::from_str::<Vec<String>>`. Claimed: it succeeds exactly when
/// `strings_of_json` of the text is a list, and then returns that list.
#[verifier::external_body]
fn json_decode_strings(text: &str) -> (r: Result<Vec<String>, serde_json::Error>)
    ensures
        (r is Ok) == (strings_of_json(text@) is Some),
        r matches Ok(v) ==> strings_of_json(text@) == Some(v.deep_view()),
{
    serde_json::from_str(text)
}

/// How an authentication type is stored.
pub open spec fn auth_str(a: AuthType) -> Seq<char> {
    match a {
        AuthType::Key => "key"@,
        AuthType::Password => "password"@,
    }
}

/// How a stored authentication type is read: `key`, or else a password.
pub open spec fn auth_of_str(s: Seq<char>) -> AuthType {
    if s == "key"@ {
        AuthType::Key
    } else {
        AuthType::Password
    }
}

pub fn auth_type_to_str(auth: &AuthType) -> (s: &'static str)
    ensures
        s@ == auth_str(*auth),
{
    match auth {
        AuthType::Key => "key",
        AuthType::Password => "password",
    }
}

pub fn auth_type_from_str(s: &str) -> (a: AuthType)
    ensures
        a == auth_of_str(s@),
{
    if chars_eq(&to_chars(s), &to_chars("key")) {
        AuthType::Key
    } else {
        AuthType::Password
    }
}

/// The columns of a `hosts` row, in table order.
#[derive(Clone, Debug)]
pub struct HostRow {
    pub id: String,
    pub name: String,
    pub address: String,
    pub port: u16,
    pub username: String,
    pub auth_type: String,
    pub auth_ref: String,
    pub group_name: String,
    pub tags: String,
    pub created_at: String,
    pub updated_at: String,
}

pub struct HostRowView {
    pub id: Seq<char>,
    pub name: Seq<char>,
    pub address: Seq<char>,
    pub port: u16,
    pub username: Seq<char>,
    pub auth_type: Seq<char>,
    pub auth_ref: Seq<char>,
    pub group_name: Seq<char>,
    pub tags: Seq<char>,
    pub created_at: Seq<char>,
    pub updated_at: Seq<char>,
}

impl View for HostRow {
    type V = HostRowView;

    open spec fn view(&self) -> HostRowView {
        HostRowView {
            id: self.id@,
            name: self.name@,
            address: self.address@,
            port: self.port,
            username: self.username@,
            auth_type: self.auth_type@,
            auth_ref: self.auth_ref@,
            group_name: self.group_name@,
            tags: self.tags@,
            created_at: self.created_at@,
            updated_at: self.updated_at@,
        }
    }
}

/// The row a host is written as: its fields, the authentication type as
/// text and the tags as a JSON list. The panel fields are not stored.
pub open spec fn row_of_host(h: HostView) -> HostRowView {
    HostRowView {
        id: h.id,
        name: h.name,
        address: h.address,
        port: h.port,
        username: h.username,
        auth_type: auth_str(h.auth_type),
        auth_ref: h.auth_ref,
        group_name: h.group_name,
        tags: json_of_strings(h.tags),
        created_at: h.created_at,
        updated_at: h.updated_at,
    }
}

/// The host a row is read as: tags that are not a JSON list of strings read
/// as no tags; no panel.
pub open spec fn host_of_row(r: HostRowView) -> HostView {
    HostView {
        id: r.id,
        name: r.name,
        address: r.address,
        port: r.port,
        username: r.username,
        auth_type: auth_of_str(r.auth_type),
        auth_ref: r.auth_ref,
        group_name: r.group_name,
        tags: match strings_of_json(r.tags) {
            Some(t) => t,
            None => seq![],
        },
        panel_type: None,
        panel_url: None,
        panel_session_ref: None,
        created_at: r.created_at,
        updated_at: r.updated_at,
    }
}

/// `row` is what `host_to_row` writes for `h`.
pub open spec fn host_written(h: Host, row: HostRow) -> bool {
    &&& row@ == row_of_host(h@)
    &&& strings_of_json(row.tags@) == Some(h@.tags)
}

pub fn host_to_row(host: &Host) -> (row: HostRow)
    ensures
        host_written(*host, row),
        row.id@ == host.id@,
        row.name@ == host.name@,
        row.address@ == host.address@,
        row.port == host.port,
        row.username@ == host.username@,
        row.auth_ref@ == host.auth_ref@,
        row.group_name@ == host.group_name@,
        row.created_at@ == host.created_at@,
        row.updated_at@ == host.updated_at@,
{
    let tags = match json_encode_strings(&host.tags) {
        Ok(s) => s,
        Err(_) => "[]".to_owned(),
    };
    HostRow {
        id: host.id.clone(),
        name: host.name.clone(),
        address: host.address.clone(),
        port: host.port,
        username: host.username.clone(),
        auth_type: auth_type_to_str(&host.auth_type).to_owned(),
        auth_ref: host.auth_ref.clone(),
        group_name: host.group_name.clone(),
        tags,
        created_at: host.created_at.clone(),
        updated_at: host.updated_at.clone(),
    }
}

pub fn row_to_host(row: HostRow) -> (h: Host)
    ensures
        h@ == host_of_row(row@),
        h.id@ == row.id@,
        h.name@ == row.name@,
        h.address@ == row.address@,
        h.port == row.port,
        h.username@ == row.username@,
        h.auth_ref@ == row.auth_ref@,
        h.group_name@ == row.group_name@,
        h.created_at@ == row.created_at@,
        h.updated_at@ == row.updated_at@,
{
    let auth_type = auth_type_from_str(row.auth_type.as_str());
    let tags: Vec<String> = match json_decode_strings(row.tags.as_str()) {
        Ok(v) => v,
        Err(_) => Vec::new(),
    };
    let h = Host {
        id: row.id,
        name: row.name,
        address: row.address,
        port: row.port,
        username: row.username,
        auth_type,
        auth_ref: row.auth_ref,
        group_name: row.group_name,
        tags,
        panel_type: None,
        panel_url: None,
        panel_session_ref: None,
        created_at: row.created_at,
        updated_at: row.updated_at,
    };
    assert(h@.tags =~= host_of_row(row@).tags);
    h
}

/// A host written as a row and read back from it is the same host, but
/// for its panel fields, which a row does not hold and which read back empty.
pub proof fn law_host_row_roundtrip(h: Host, row: HostRow, back: HostView)
    requires
        host_written(h, row),
        back == host_of_row(row@),
    ensures
        back == (HostView { panel_type: None, panel_url: None, panel_session_ref: None, ..h@ }),
{
    assert(auth_of_str(auth_str(h.auth_type)) == h.auth_type) by {
        reveal_strlit("key");
        reveal_strlit("password");
        if h.auth_type == AuthType::Password {
            assert("password"@[0] != "key"@[0]);
        }
    }
}

/// Each column of a written row holds the host's field of the same name
/// (the authentication type as `key` or `password`, the tags as their JSON
/// list); and each field of a host read from a row comes from the column of
/// the same name, any type text but `key` reading as a password.
pub proof fn law_host_row_columns(h: HostView, r: HostRowView)
    ensures
        row_of_host(h).id == h.id,
        row_of_host(h).name == h.name,
        row_of_host(h).address == h.address,
        row_of_host(h).port == h.port,
        row_of_host(h).username == h.username,
        row_of_host(h).auth_ref == h.auth_ref,
        row_of_host(h).group_name == h.group_name,
        row_of_host(h).tags == json_of_strings(h.tags),
        row_of_host(h).created_at == h.created_at,
        row_of_host(h).updated_at == h.updated_at,
        h.auth_type is Key ==> row_of_host(h).auth_type == "key"@,
        h.auth_type is Password ==> row_of_host(h).auth_type == "password"@,
        host_of_row(r).id == r.id,
        host_of_row(r).name == r.name,
        host_of_row(r).address == r.address,
        host_of_row(r).port == r.port,
        host_of_row(r).username == r.username,
        host_of_row(r).auth_ref == r.auth_ref,
        host_of_row(r).group_name == r.group_name,
        host_of_row(r).created_at == r.created_at,
        host_of_row(r).updated_at == r.updated_at,
        (host_of_row(r).auth_type is Key) == (r.auth_type == "key"@),
{
}

} // verus!
