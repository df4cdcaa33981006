//! The source reader's decision logic: the two known table layouts, the
//! memoized schema detection, and the decoding of a record's payload into
//! its three visible fields with the two-tier key-path fallback. Opening the
//! store and running the queries are the caller's steps.
use vstd::prelude::*;

use crate::models::{Notification, ParsedPlist};

verus! {

/// A parsed record payload. Only strings and string-keyed dictionaries are
/// distinguished: nothing else is read.
#[derive(Debug)]
pub enum PlistNode {
    Str(String),
    Dict(Vec<(String, PlistNode)>),
    Other,
}

/// plist's own value tree, opaque to the verifier; it only passes between
/// the two trusted functions below.
#[verifier::external_type_specification]
#[verifier::external_body]
pub struct ExPlistValue(plist::Value);

/// The node tree that the plist reader produces for given payload bytes:
/// `None` when the bytes are not a readable property list. It is a function
/// of the bytes alone; dictionary entries keep the reader's order.
pub uninterp spec fn payload_of(data: Seq<u8>) -> Option<PlistNode>;

/// Relies on plist::Value::from_reader: reading either fails or yields the
/// value tree of the payload bytes, deterministically.
#[verifier::external_body]
fn plist_from_bytes(data: &[u8]) -> (r: Option<PlistNode>)
    ensures
        r == payload_of(data@),
{
    plist::Value::from_reader(std::io::Cursor::new(data)).ok().map(|v| convert_plist(&v))
}

/// Relies on plist::Value only to mirror each node into the library's own
/// model: strings and dictionaries are kept, every other node is opaque.
#[verifier::external_body]
fn convert_plist(v: &plist::Value) -> PlistNode {
    match v {
        plist::Value::String(s) => PlistNode::Str(s.clone()),
        plist::Value::Dictionary(d) => PlistNode::Dict(
            d.iter().map(|(k, x)| (k.clone(), convert_plist(x))).collect(),
        ),
        _ => PlistNode::Other,
    }
}

/// The child under `key` in a dictionary's entry list.
pub open spec fn dict_lookup(entries: Seq<(String, PlistNode)>, key: Seq<char>) -> Option<
    PlistNode,
>
    decreases entries.len(),
{
    if entries.len() == 0 {
        None
    } else if entries[0].0@ == key {
        Some(entries[0].1)
    } else {
        dict_lookup(entries.drop_first(), key)
    }
}

/// The child under `key`: `None` when the node is not a dictionary or the
/// key is absent.
pub open spec fn node_lookup(v: PlistNode, key: Seq<char>) -> Option<PlistNode> {
    match v {
        PlistNode::Dict(entries) => dict_lookup(entries@, key),
        _ => None,
    }
}

/// The string at the end of a key path, or empty when the path leads through
/// a missing key, a non-dictionary, or ends on a non-string.
pub open spec fn extract_spec(v: PlistNode, keys: Seq<Seq<char>>) -> Seq<char>
    decreases keys.len(),
{
    if keys.len() == 0 {
        match v {
            PlistNode::Str(s) => s@,
            _ => Seq::<char>::empty(),
        }
    } else {
        match node_lookup(v, keys[0]) {
            Some(child) => extract_spec(child, keys.drop_first()),
            None => Seq::<char>::empty(),
        }
    }
}

fn dict_get<'a>(v: &'a PlistNode, key: &str) -> (r: Option<&'a PlistNode>)
    ensures
        match r {
            Some(child) => node_lookup(*v, key@) == Some(*child),
            None => node_lookup(*v, key@) is None,
        },
{
    match v {
        PlistNode::Dict(entries) => {
            let n = entries.len();
            let mut i: usize = 0;
            proof {
                assert(entries@.skip(0) =~= entries@);
            }
            while i < n
                invariant
                    0 <= i <= n,
                    n == entries@.len(),
                    node_lookup(*v, key@) == dict_lookup(entries@, key@),
                    dict_lookup(entries@, key@) == dict_lookup(entries@.skip(i as int), key@),
                decreases n - i,
            {
                let pair = &entries[i];
                proof {
                    assert(entries@.skip(i as int)[0] == entries@[i as int]);
                    assert(entries@.skip(i as int).drop_first() =~= entries@.skip(i + 1));
                }
                if crate::textutil::str_eq(pair.0.as_str(), key) {
                    proof {
                        assert(dict_lookup(entries@.skip(i as int), key@) == Some(
                            entries@.skip(i as int)[0].1,
                        ));
                    }
                    return Some(&pair.1);
                }
                i = i + 1;
            }
            proof {
                assert(entries@.skip(n as int) =~= Seq::<(String, PlistNode)>::empty());
            }
            None
        },
        _ => None,
    }
}

/// The string under a one-key path.
pub fn extract_plist_string1(value: &PlistNode, key: &str) -> (r: String)
    ensures
        r@ == extract_spec(*value, seq![key@]),
{
    match dict_get(value, key) {
        Some(child) => {
            proof {
                assert(node_lookup(*value, key@) == Some(*child));
                assert(seq![key@][0] == key@);
                assert(seq![key@].len() == 1);
                assert(seq![key@].drop_first() =~= Seq::<Seq<char>>::empty());
                assert(extract_spec(*value, seq![key@]) == extract_spec(
                    *child,
                    seq![key@].drop_first(),
                ));
            }
            match child {
                PlistNode::Str(s) => s.clone(),
                _ => String::new(),
            }
        },
        None => String::new(),
    }
}

/// The string under a two-key path.
pub fn extract_plist_string2(value: &PlistNode, key1: &str, key2: &str) -> (r: String)
    ensures
        r@ == extract_spec(*value, seq![key1@, key2@]),
{
    match dict_get(value, key1) {
        Some(child) => {
            proof {
                assert(seq![key1@, key2@].drop_first() =~= seq![key2@]);
            }
            extract_plist_string1(child, key2)
        },
        None => String::new(),
    }
}

/// Primary key path, with the nested fallback under `req` when it is empty.
pub open spec fn field_spec(v: PlistNode, key: Seq<char>) -> Seq<char> {
    if extract_spec(v, seq![key]).len() == 0 {
        extract_spec(v, seq!["req"@, key])
    } else {
        extract_spec(v, seq![key])
    }
}

/// The three visible fields of a decoded payload; an unreadable payload
/// decodes to three empty fields.
pub open spec fn decode_payload_spec(p: Option<PlistNode>) -> crate::models::ParsedPlistView {
    match p {
        Some(v) => crate::models::ParsedPlistView {
            title: field_spec(v, "titl"@),
            body: field_spec(v, "body"@),
            subtitle: field_spec(v, "subt"@),
        },
        None => crate::models::ParsedPlistView {
            title: Seq::<char>::empty(),
            body: Seq::<char>::empty(),
            subtitle: Seq::<char>::empty(),
        },
    }
}

fn field_with_fallback(value: &PlistNode, key: &str) -> (r: String)
    ensures
        r@ == field_spec(*value, key@),
{
    let primary = extract_plist_string1(value, key);
    if primary.as_str().is_empty() {
        extract_plist_string2(value, "req", key)
    } else {
        primary
    }
}

/// Decode a record's payload, total: a malformed payload yields empty fields.
pub fn parse_notification_plist(data: &[u8]) -> (r: ParsedPlist)
    ensures
        r@ == decode_payload_spec(payload_of(data@)),
{
    match plist_from_bytes(data) {
        Some(value) => ParsedPlist {
            title: field_with_fallback(&value, "titl"),
            body: field_with_fallback(&value, "body"),
            subtitle: field_with_fallback(&value, "subt"),
        },
        None => ParsedPlist {
            title: String::new(),
            body: String::new(),
            subtitle: String::new(),
        },
    }
}

/// Build the record handed to the pipeline from one raw row of the store.
pub fn notification_from_row(rowid: i64, data: &[u8], bundle_id: String, now: i64) -> (r:
    Notification)
    ensures
        r.rowid == rowid,
        r.timestamp == now,
        r@.bundle_id == bundle_id@,
        r@.title == decode_payload_spec(payload_of(data@)).title,
        r@.body == decode_payload_spec(payload_of(data@)).body,
        r@.subtitle == decode_payload_spec(payload_of(data@)).subtitle,
{
    let parsed = parse_notification_plist(data);
    Notification {
        rowid,
        title: parsed.title,
        body: parsed.body,
        subtitle: parsed.subtitle,
        bundle_id,
        timestamp: now,
    }
}

/// The two known table layouts of the notification store.
#[derive(Debug, Clone, Copy, PartialEq, Eq, Structural)]
pub enum SchemaKind {
    Z,
    Record,
}

impl SchemaKind {
    pub open spec fn query_spec(self) -> Seq<char> {
        match self {
            SchemaKind::Z =>
                "SELECT rec.Z_PK, rec.ZDATA, app.ZBUNDLEID FROM ZNOTIFICATIONENTRY rec JOIN ZNOTIFICATIONAPPENTRY app ON rec.ZAPP = app.Z_PK WHERE rec.Z_PK > ? ORDER BY rec.Z_PK"@,
            SchemaKind::Record =>
                "SELECT rec.rec_id, rec.data, app.identifier FROM record rec JOIN app ON rec.app_id = app.app_id WHERE rec.rec_id > ? ORDER BY rec.rec_id"@,
        }
    }

    /// The row query of this layout: records past a cursor, ascending.
    pub fn query(self) -> (r: &'static str)
        ensures
            r@ == self.query_spec(),
    {
        match self {
            SchemaKind::Z =>
                "SELECT rec.Z_PK, rec.ZDATA, app.ZBUNDLEID FROM ZNOTIFICATIONENTRY rec JOIN ZNOTIFICATIONAPPENTRY app ON rec.ZAPP = app.Z_PK WHERE rec.Z_PK > ? ORDER BY rec.Z_PK",
            SchemaKind::Record =>
                "SELECT rec.rec_id, rec.data, app.identifier FROM record rec JOIN app ON rec.app_id = app.app_id WHERE rec.rec_id > ? ORDER BY rec.rec_id",
        }
    }

    pub open spec fn max_rowid_query_spec(self) -> Seq<char> {
        match self {
            SchemaKind::Z => "SELECT MAX(Z_PK) FROM ZNOTIFICATIONENTRY"@,
            SchemaKind::Record => "SELECT MAX(rec_id) FROM record"@,
        }
    }

    /// The newest-identifier query of this layout.
    pub fn max_rowid_query(self) -> (r: &'static str)
        ensures
            r@ == self.max_rowid_query_spec(),
    {
        match self {
            SchemaKind::Z => "SELECT MAX(Z_PK) FROM ZNOTIFICATIONENTRY",
            SchemaKind::Record => "SELECT MAX(rec_id) FROM record",
        }
    }
}

/// Reads the notification store. The layout variant is detected once per
/// reader lifetime and memoized; a failed detection is retried on the next
/// read.
#[derive(Debug)]
pub struct NotificationDb {
    db_path: String,
    query: Option<SchemaKind>,
}

impl NotificationDb {
    /// The path of the store.
    pub closed spec fn db_path_spec(&self) -> Seq<char> {
        self.db_path@
    }

    /// The memoized layout, once one was accepted.
    pub closed spec fn query_spec(&self) -> Option<SchemaKind> {
        self.query
    }

    pub fn new(db_path: String) -> (r: NotificationDb)
        ensures
            r.db_path_spec() == db_path@,
            r.query_spec() is None,
    {
        NotificationDb { db_path, query: None }
    }

    /// Where the store lives.
    pub fn path(&self) -> (r: &String)
        ensures
            r@ == self.db_path_spec(),
    {
        &self.db_path
    }

    /// Decide the layout from which trial queries the store accepted, in
    /// priority order, memoizing an accepted layout; `None` (schema
    /// undetectable) is not memoized and is retried on the next cycle.
    pub fn resolve_query(&mut self, z_ok: bool, record_ok: bool) -> (r: Option<SchemaKind>)
        ensures
            final(self).db_path_spec() == old(self).db_path_spec(),
            r == match old(self).query_spec() {
                Some(q) => Some(q),
                None => if z_ok {
                    Some(SchemaKind::Z)
                } else if record_ok {
                    Some(SchemaKind::Record)
                } else {
                    None
                },
            },
            final(self).query_spec() == r,
    {
        match self.query {
            Some(q) => Some(q),
            None => {
                if z_ok {
                    self.query = Some(SchemaKind::Z);
                    Some(SchemaKind::Z)
                } else if record_ok {
                    self.query = Some(SchemaKind::Record);
                    Some(SchemaKind::Record)
                } else {
                    None
                }
            },
        }
    }
}

} // verus!
