//! A durable queue that keeps each message until it is acknowledged, one per recipient, and the
//! log of a conversation, in one `redb` database: on disk, or in memory for what need not last.
//!
//! Values are opaque bytes, so one store serves the bus and the outbox of an agent. A message
//! stays until it is acknowledged; that it may come again after a crash is safe, because the
//! receiver drops what it has seen.
use crate::codec::{
    empty_object_is, is_record, is_record_of, member, member_of, opt_text_member, opt_text_of,
    text_member, text_of, variant_word, variant_word_of, whole_member, whole_of, with_sets,
};
use crate::identity::opt_text;
use crate::json::{empty_object, parsed_json, rendered_json, with_is_plain, Json, JsonTree};
use crate::lookup::sorted_keys_are_distinct;
use crate::queue::{
    entry_key, first_nul_splits, is_listing, listing, listing_is, lists_key, log_index_key,
    message_key, msg_key, nul_free, queue_of, range_is_prefix, recipient_bounds,
};
use crate::text::{padded_text, padded_text_has_len, same_text};
use redb::{ReadableDatabase, ReadableTable};
use vstd::prelude::*;
use vstd::utf8::encode_utf8;

verus! {

/// A `redb` database.
#[verifier::external_type_specification]
#[verifier::external_body]
pub struct ExDatabase(redb::Database);

/// An error of `redb`.
#[verifier::external_type_specification]
#[verifier::external_body]
pub struct ExDatabaseError(redb::Error);

/// What the table of that name holds, of a table from texts to bytes.
pub uninterp spec fn byte_table(db: redb::Database, table: Seq<char>) -> Map<Seq<char>, Seq<u8>>;

/// What the table of that name holds, of a table from texts to numbers.
pub uninterp spec fn number_table(db: redb::Database, table: Seq<char>) -> Map<Seq<char>, u64>;

/// What the table of that name holds, of a table from texts to texts.
pub uninterp spec fn text_table(db: redb::Database, table: Seq<char>) -> Map<
    Seq<char>,
    Seq<char>,
>;

/// The path of the file that a database was opened from; nothing for one in memory.
pub uninterp spec fn file_of(db: redb::Database) -> Option<Seq<char>>;

/// Every table of bytes is finite.
pub open spec fn tables_are_finite(db: redb::Database) -> bool {
    forall|table: Seq<char>| (#[trigger] byte_table(db, table)).dom().finite()
}

/// No table holds anything.
pub open spec fn tables_are_empty(db: redb::Database) -> bool {
    &&& forall|table: Seq<char>| #[trigger]
        byte_table(db, table) == Map::<Seq<char>, Seq<u8>>::empty()
    &&& forall|table: Seq<char>| #[trigger]
        number_table(db, table) == Map::<Seq<char>, u64>::empty()
    &&& forall|table: Seq<char>| #[trigger]
        text_table(db, table) == Map::<Seq<char>, Seq<char>>::empty()
}

/// Keys with bytes.
pub open spec fn byte_pairs(v: Seq<(String, Vec<u8>)>) -> Seq<(Seq<char>, Seq<u8>)> {
    v.map_values(|p: (String, Vec<u8>)| (p.0@, p.1@))
}

/// Keys with texts.
pub open spec fn text_pairs(v: Seq<(String, String)>) -> Seq<(Seq<char>, Seq<char>)> {
    v.map_values(|p: (String, String)| (p.0@, p.1@))
}

/// The value under a key of a table.
pub open spec fn stored<V>(table: Map<Seq<char>, V>, key: Seq<char>) -> Option<V> {
    if table.contains_key(key) {
        Some(table[key])
    } else {
        None
    }
}

/// `redb::Database::create`: the database in a file, which is made where there is none. Nothing is
/// said of what an existing file holds, but that it is finite.
#[verifier::external_body]
fn open_file(path: &str) -> (r: Result<redb::Database, redb::Error>)
    ensures
        r matches Ok(db) ==> tables_are_finite(db) && file_of(db) == Some(path@),
{
    Ok(redb::Database::create(path)?)
}

/// `redb::Builder::create_with_backend` on an `InMemoryBackend`: a new database, without entries.
#[verifier::external_body]
fn open_memory() -> (r: Result<redb::Database, redb::Error>)
    ensures
        r matches Ok(db) ==> tables_are_finite(db) && tables_are_empty(db) && file_of(db) is None,
{
    let backend = redb::backends::InMemoryBackend::new();
    Ok(redb::Database::builder().create_with_backend(backend)?)
}

/// `redb`'s read transaction and `get` on a table of numbers: the number under the key. A table
/// that was never written is empty.
#[verifier::external_body]
fn get_number(db: &redb::Database, table: &str, key: &str) -> (r: Result<Option<u64>, redb::Error>)
    requires
        table@.len() > 0,
    ensures
        r matches Ok(o) ==> o == stored(number_table(*db, table@), key@),
{
    let name: redb::TableDefinition<&str, u64> = redb::TableDefinition::new(table);
    let table = match db.begin_read()?.open_table(name) {
        Ok(table) => table,
        Err(redb::TableError::TableDoesNotExist(_)) => return Ok(None),
        Err(e) => return Err(e.into()),
    };
    let found = table.get(key)?.map(|v| v.value());
    Ok(found)
}

/// `redb`'s read transaction and `get` on a table of bytes: the bytes under the key. A table that
/// was never written is empty.
#[verifier::external_body]
fn get_bytes(db: &redb::Database, table: &str, key: &str) -> (r: Result<
    Option<Vec<u8>>,
    redb::Error,
>)
    requires
        table@.len() > 0,
    ensures
        r matches Ok(o) ==> match o {
            Some(v) => stored(byte_table(*db, table@), key@) == Some(v@),
            None => stored(byte_table(*db, table@), key@) is None,
        },
{
    let name: redb::TableDefinition<&str, &[u8]> = redb::TableDefinition::new(table);
    let table = match db.begin_read()?.open_table(name) {
        Ok(table) => table,
        Err(redb::TableError::TableDoesNotExist(_)) => return Ok(None),
        Err(e) => return Err(e.into()),
    };
    let found = table.get(key)?.map(|v| v.value().to_vec());
    Ok(found)
}

/// `redb`'s read transaction and `range` on a table of bytes: the entries with keys from `lo` to
/// before `hi`, in the order of the keys, which `redb` keeps by their code points. A table that
/// was never written is empty.
#[verifier::external_body]
fn scan_bytes(db: &redb::Database, table: &str, lo: &str, hi: &str) -> (r: Result<
    Vec<(String, Vec<u8>)>,
    redb::Error,
>)
    requires
        table@.len() > 0,
    ensures
        r matches Ok(v) ==> is_listing(byte_table(*db, table@), lo@, hi@, byte_pairs(v@)),
{
    let name: redb::TableDefinition<&str, &[u8]> = redb::TableDefinition::new(table);
    let table = match db.begin_read()?.open_table(name) {
        Ok(table) => table,
        Err(redb::TableError::TableDoesNotExist(_)) => return Ok(Vec::new()),
        Err(e) => return Err(e.into()),
    };
    let mut out = Vec::new();
    for entry in table.range(lo..hi)? {
        let (key, value) = entry?;
        out.push((key.value().to_string(), value.value().to_vec()));
    }
    Ok(out)
}

/// `redb`'s read transaction and `range` on a table of texts: the entries with keys from `lo` to
/// before `hi`, in the order of the keys. A table that was never written is empty.
#[verifier::external_body]
fn scan_texts(db: &redb::Database, table: &str, lo: &str, hi: &str) -> (r: Result<
    Vec<(String, String)>,
    redb::Error,
>)
    requires
        table@.len() > 0,
    ensures
        r matches Ok(v) ==> is_listing(text_table(*db, table@), lo@, hi@, text_pairs(v@)),
{
    let name: redb::TableDefinition<&str, &str> = redb::TableDefinition::new(table);
    let table = match db.begin_read()?.open_table(name) {
        Ok(table) => table,
        Err(redb::TableError::TableDoesNotExist(_)) => return Ok(Vec::new()),
        Err(e) => return Err(e.into()),
    };
    let mut out = Vec::new();
    for entry in table.range(lo..hi)? {
        let (key, value) = entry?;
        out.push((key.value().to_string(), value.value().to_string()));
    }
    Ok(out)
}

/// `redb`'s write transaction with an `insert` into a table of numbers and one into a table of
/// bytes: both are made, or the call fails. Of a call that fails nothing is said but that the
/// database is finite and of the same file.
#[verifier::external_body]
fn put_number_and_bytes(
    db: &mut redb::Database,
    numbers: &str,
    counter: &str,
    n: u64,
    bytes: &str,
    key: &str,
    value: &Vec<u8>,
) -> (r: Result<(), redb::Error>)
    requires
        numbers@.len() > 0,
        bytes@.len() > 0,
    ensures
        tables_are_finite(*old(db)) ==> tables_are_finite(*final(db)),
        file_of(*final(db)) == file_of(*old(db)),
        r is Ok ==> forall|t: Seq<char>| #[trigger]
            number_table(*final(db), t) == if t == numbers@ {
                number_table(*old(db), t).insert(counter@, n)
            } else {
                number_table(*old(db), t)
            },
        r is Ok ==> forall|t: Seq<char>| #[trigger]
            byte_table(*final(db), t) == if t == bytes@ {
                byte_table(*old(db), t).insert(key@, value@)
            } else {
                byte_table(*old(db), t)
            },
        r is Ok ==> forall|t: Seq<char>| #[trigger]
            text_table(*final(db), t) == text_table(*old(db), t),
{
    let numbers: redb::TableDefinition<&str, u64> = redb::TableDefinition::new(numbers);
    let bytes: redb::TableDefinition<&str, &[u8]> = redb::TableDefinition::new(bytes);
    let tx = db.begin_write()?;
    tx.open_table(numbers)?.insert(counter, n)?;
    tx.open_table(bytes)?.insert(key, value.as_slice())?;
    tx.commit()?;
    Ok(())
}

/// `redb`'s write transaction with an `insert` into a table of bytes, and a `remove` from a table
/// of texts and then an `insert` into it: all are made, or the call fails. A key to be removed that
/// is not there is no error. Of a call that fails nothing is said but that the database
/// is finite and of the same file.
#[verifier::external_body]
fn put_bytes_and_text(
    db: &mut redb::Database,
    bytes: &str,
    key: &str,
    value: &Vec<u8>,
    texts: &str,
    stale_key: &str,
    text_key: &str,
    text: &str,
) -> (r: Result<(), redb::Error>)
    requires
        bytes@.len() > 0,
        texts@.len() > 0,
    ensures
        tables_are_finite(*old(db)) ==> tables_are_finite(*final(db)),
        file_of(*final(db)) == file_of(*old(db)),
        r is Ok ==> forall|t: Seq<char>| #[trigger]
            number_table(*final(db), t) == number_table(*old(db), t),
        r is Ok ==> forall|t: Seq<char>| #[trigger]
            byte_table(*final(db), t) == if t == bytes@ {
                byte_table(*old(db), t).insert(key@, value@)
            } else {
                byte_table(*old(db), t)
            },
        r is Ok ==> forall|t: Seq<char>| #[trigger]
            text_table(*final(db), t) == if t == texts@ {
                text_table(*old(db), t).remove(stale_key@).insert(text_key@, text@)
            } else {
                text_table(*old(db), t)
            },
{
    let bytes: redb::TableDefinition<&str, &[u8]> = redb::TableDefinition::new(bytes);
    let texts: redb::TableDefinition<&str, &str> = redb::TableDefinition::new(texts);
    let tx = db.begin_write()?;
    tx.open_table(bytes)?.insert(key, value.as_slice())?;
    tx.open_table(texts)?.remove(stale_key)?;
    tx.open_table(texts)?.insert(text_key, text)?;
    tx.commit()?;
    Ok(())
}

/// `redb`'s write transaction with an `insert` into a table of bytes. Of a call that fails nothing
/// is said but that the database is finite and of the same file.
#[verifier::external_body]
fn put_bytes(db: &mut redb::Database, table: &str, key: &str, value: &Vec<u8>) -> (r: Result<
    (),
    redb::Error,
>)
    requires
        table@.len() > 0,
    ensures
        tables_are_finite(*old(db)) ==> tables_are_finite(*final(db)),
        file_of(*final(db)) == file_of(*old(db)),
        r is Ok ==> forall|t: Seq<char>| #[trigger]
            number_table(*final(db), t) == number_table(*old(db), t),
        r is Ok ==> forall|t: Seq<char>| #[trigger]
            byte_table(*final(db), t) == if t == table@ {
                byte_table(*old(db), t).insert(key@, value@)
            } else {
                byte_table(*old(db), t)
            },
        r is Ok ==> forall|t: Seq<char>| #[trigger]
            text_table(*final(db), t) == text_table(*old(db), t),
{
    let table: redb::TableDefinition<&str, &[u8]> = redb::TableDefinition::new(table);
    let tx = db.begin_write()?;
    tx.open_table(table)?.insert(key, value.as_slice())?;
    tx.commit()?;
    Ok(())
}

/// `redb`'s write transaction with a `remove` from a table of bytes; a key that is not there is
/// no error. Of a call that fails nothing is said but that the database
/// is finite and of the same file.
#[verifier::external_body]
fn remove_bytes(db: &mut redb::Database, table: &str, key: &str) -> (r: Result<(), redb::Error>)
    requires
        table@.len() > 0,
    ensures
        tables_are_finite(*old(db)) ==> tables_are_finite(*final(db)),
        file_of(*final(db)) == file_of(*old(db)),
        r is Ok ==> forall|t: Seq<char>| #[trigger]
            number_table(*final(db), t) == number_table(*old(db), t),
        r is Ok ==> forall|t: Seq<char>| #[trigger]
            byte_table(*final(db), t) == if t == table@ {
                byte_table(*old(db), t).remove(key@)
            } else {
                byte_table(*old(db), t)
            },
        r is Ok ==> forall|t: Seq<char>| #[trigger]
            text_table(*final(db), t) == text_table(*old(db), t),
{
    let table: redb::TableDefinition<&str, &[u8]> = redb::TableDefinition::new(table);
    let tx = db.begin_write()?;
    tx.open_table(table)?.remove(key)?;
    tx.commit()?;
    Ok(())
}

/// The table of waiting messages.
pub const MESSAGES: &'static str = "messages";

/// The table of counters.
pub const META: &'static str = "meta";

/// The counter of sequence numbers.
pub const NEXT_SEQ: &'static str = "next_seq";

/// The table of log records, one for each message id.
pub const LOG: &'static str = "log";

/// The table that orders the log records of each peer by time.
pub const LOG_INDEX: &'static str = "log_index";

proof fn table_names_are_distinct()
    ensures
        MESSAGES@ != LOG@,
        MESSAGES@.len() > 0,
        META@.len() > 0,
        LOG@.len() > 0,
        LOG_INDEX@.len() > 0,
{
    reveal_strlit("messages");
    reveal_strlit("meta");
    reveal_strlit("log");
    reveal_strlit("log_index");
    assert(MESSAGES@.len() == 8 && LOG@.len() == 3 && META@.len() == 4 && LOG_INDEX@.len() == 9);
}

/// Which way a message went.
#[derive(Debug, Clone, Copy, PartialEq, Eq, Structural)]
pub enum Dir {
    In,
    Out,
}

impl Dir {
    /// The word for the direction.
    pub open spec fn tag(self) -> Seq<char> {
        match self {
            Dir::In => "in"@,
            Dir::Out => "out"@,
        }
    }

    /// The word for the direction.
    pub fn as_str(self) -> (r: &'static str)
        ensures
            r@ == self.tag(),
    {
        match self {
            Dir::In => "in",
            Dir::Out => "out",
        }
    }
}

/// The direction that a word names.
pub open spec fn dir_of_tag(s: Seq<char>) -> Option<Dir> {
    if s == "in"@ {
        Some(Dir::In)
    } else if s == "out"@ {
        Some(Dir::Out)
    } else {
        None
    }
}

/// One entry of the conversation log. The text is `None` where the body was withheld.
#[derive(Debug, Clone, PartialEq)]
pub struct LogRecord {
    pub msg_id: String,
    pub dir: Dir,
    pub peer: String,
    pub text: Option<String>,
    pub ts: u64,
    pub state: String,
}

/// The contents of a log record.
pub struct RecordView {
    pub msg_id: Seq<char>,
    pub dir: Dir,
    pub peer: Seq<char>,
    pub text: Option<Seq<char>>,
    pub ts: u64,
    pub state: Seq<char>,
}

impl View for LogRecord {
    type V = RecordView;

    open spec fn view(&self) -> RecordView {
        RecordView {
            msg_id: self.msg_id@,
            dir: self.dir,
            peer: self.peer@,
            text: opt_text(self.text),
            ts: self.ts,
            state: self.state@,
        }
    }
}

/// The direction field of a record.
pub open spec fn dir_member(t: JsonTree) -> Option<Dir> {
    match member(t, "dir"@, 1) {
        Some(v) => match variant_word(v) {
            Some(s) => dir_of_tag(s),
            None => None,
        },
        None => None,
    }
}

/// The log record that a JSON value writes.
pub open spec fn record_of(t: JsonTree) -> Option<RecordView> {
    if is_record(t, 6) && text_member(t, "msg_id"@, 0) is Some && dir_member(t) is Some
        && text_member(t, "peer"@, 2) is Some && opt_text_member(t, "text"@, 3) is Some
        && whole_member(t, "ts"@, 4) is Some && text_member(t, "state"@, 5) is Some {
        Some(
            RecordView {
                msg_id: text_member(t, "msg_id"@, 0)->0,
                dir: dir_member(t)->0,
                peer: text_member(t, "peer"@, 2)->0,
                text: opt_text_member(t, "text"@, 3)->0,
                ts: whole_member(t, "ts"@, 4)->0,
                state: text_member(t, "state"@, 5)->0,
            },
        )
    } else {
        None
    }
}

/// A text, or null.
pub open spec fn text_or_null(o: Option<Seq<char>>) -> JsonTree {
    match o {
        Some(s) => JsonTree::Text(s),
        None => JsonTree::Null,
    }
}

/// The JSON object for a log record.
pub open spec fn record_tree(r: RecordView) -> JsonTree {
    empty_object().with("msg_id"@, JsonTree::Text(r.msg_id)).with(
        "dir"@,
        JsonTree::Text(r.dir.tag()),
    ).with("peer"@, JsonTree::Text(r.peer)).with("text"@, text_or_null(r.text)).with(
        "ts"@,
        JsonTree::Whole(r.ts),
    ).with("state"@, JsonTree::Text(r.state))
}

/// The bytes that are stored for a log record.
pub open spec fn record_bytes(r: RecordView) -> Seq<u8> {
    encode_utf8(rendered_json(record_tree(r)))
}

/// The log record that stored bytes write.
pub open spec fn record_of_bytes(bytes: Seq<u8>) -> Option<RecordView> {
    match parsed_json(bytes) {
        Some(t) => record_of(t),
        None => None,
    }
}

proof fn record_keys_differ()
    ensures
        "peer"@ != "text"@,
        "msg_id"@.len() == 6,
        "dir"@.len() == 3,
        "peer"@.len() == 4,
        "text"@.len() == 4,
        "ts"@.len() == 2,
        "state"@.len() == 5,
        "in"@ != "out"@,
{
    reveal_strlit("msg_id");
    reveal_strlit("dir");
    reveal_strlit("peer");
    reveal_strlit("text");
    reveal_strlit("ts");
    reveal_strlit("state");
    reveal_strlit("in");
    reveal_strlit("out");
    assert("peer"@[0] == 'p' && "text"@[0] == 't');
    assert("in"@.len() == 2 && "out"@.len() == 3);
}

/// What is written for a log record reads as that record.
pub proof fn record_round_trips(r: RecordView)
    ensures
        record_of(record_tree(r)) == Some(r),
        record_tree(r).plain(127),
{
    record_keys_differ();
    empty_object_is(127);
    let t0 = empty_object();
    let t1 = t0.with("msg_id"@, JsonTree::Text(r.msg_id));
    with_sets(t0, "msg_id"@, JsonTree::Text(r.msg_id));
    with_is_plain(t0, "msg_id"@, JsonTree::Text(r.msg_id), 127);
    let t2 = t1.with("dir"@, JsonTree::Text(r.dir.tag()));
    with_sets(t1, "dir"@, JsonTree::Text(r.dir.tag()));
    with_is_plain(t1, "dir"@, JsonTree::Text(r.dir.tag()), 127);
    let t3 = t2.with("peer"@, JsonTree::Text(r.peer));
    with_sets(t2, "peer"@, JsonTree::Text(r.peer));
    with_is_plain(t2, "peer"@, JsonTree::Text(r.peer), 127);
    let t4 = t3.with("text"@, text_or_null(r.text));
    with_sets(t3, "text"@, text_or_null(r.text));
    with_is_plain(t3, "text"@, text_or_null(r.text), 127);
    let t5 = t4.with("ts"@, JsonTree::Whole(r.ts));
    with_sets(t4, "ts"@, JsonTree::Whole(r.ts));
    with_is_plain(t4, "ts"@, JsonTree::Whole(r.ts), 127);
    let t6 = t5.with("state"@, JsonTree::Text(r.state));
    with_sets(t5, "state"@, JsonTree::Text(r.state));
    with_is_plain(t5, "state"@, JsonTree::Text(r.state), 127);
    assert(t6.get("msg_id"@) == Some(JsonTree::Text(r.msg_id)));
    assert(t6.get("dir"@) == Some(JsonTree::Text(r.dir.tag())));
    assert(t6.get("peer"@) == Some(JsonTree::Text(r.peer)));
    assert(t6.get("text"@) == Some(text_or_null(r.text)));
    assert(t6.get("ts"@) == Some(JsonTree::Whole(r.ts)));
    assert(t6.get("state"@) == Some(JsonTree::Text(r.state)));
}

impl LogRecord {
    /// Reads a record from its JSON form.
    pub fn from_json(j: &Json) -> (r: Option<LogRecord>)
        ensures
            match r {
                Some(rec) => record_of(j.tree()) == Some(rec@),
                None => record_of(j.tree()) is None,
            },
    {
        if !is_record_of(j, 6) {
            return None;
        }
        let msg_id = match text_of(j, "msg_id", 0) {
            Some(v) => v,
            None => return None,
        };
        let dir = match member_of(j, "dir", 1) {
            Some(v) => match variant_word_of(v) {
                Some(s) => if same_text(s, "in") {
                    Dir::In
                } else if same_text(s, "out") {
                    Dir::Out
                } else {
                    return None;
                },
                None => return None,
            },
            None => return None,
        };
        let peer = match text_of(j, "peer", 2) {
            Some(v) => v,
            None => return None,
        };
        let text = match opt_text_of(j, "text", 3) {
            Some(v) => v,
            None => return None,
        };
        let ts: u64 = match whole_of(j, "ts", 4) {
            Some(v) => v,
            None => return None,
        };
        let state = match text_of(j, "state", 5) {
            Some(v) => v,
            None => return None,
        };
        Some(LogRecord { msg_id, dir, peer, text, ts, state })
    }

    /// The record's JSON form.
    pub fn to_json(&self) -> (r: Json)
        ensures
            r.tree() == record_tree(self@),
            r.tree().wf(),
            r.tree().plain(127),
    {
        proof {
            record_round_trips(self@);
        }
        let text = match &self.text {
            Some(s) => Json::Text(s.clone()),
            None => Json::Null,
        };
        Json::object().with("msg_id", Json::Text(self.msg_id.clone())).with(
            "dir",
            Json::text(self.dir.as_str()),
        ).with("peer", Json::Text(self.peer.clone())).with("text", text).with(
            "ts",
            Json::Whole(self.ts),
        ).with("state", Json::Text(self.state.clone()))
    }

    fn to_bytes(&self) -> (r: Vec<u8>)
        ensures
            r@ == record_bytes(self@),
            record_of_bytes(r@) == Some(self@),
    {
        proof {
            record_round_trips(self@);
        }
        let text = self.to_json().to_text();
        let mut out: Vec<u8> = Vec::new();
        crate::wire::push_bytes(&mut out, text.as_str().as_bytes());
        assert(out@ =~= encode_utf8(text@));
        out
    }

    fn from_bytes(bytes: &Vec<u8>) -> (r: Option<LogRecord>)
        ensures
            match r {
                Some(rec) => record_of_bytes(bytes@) == Some(rec@),
                None => record_of_bytes(bytes@) is None,
            },
    {
        match Json::parse_bytes(bytes.as_slice()) {
            Some(j) => LogRecord::from_json(&j),
            None => None,
        }
    }
}

/// Why a request to the store failed.
#[derive(Debug)]
pub enum StoreError {
    /// The database failed.
    Database(redb::Error),
    /// Every sequence number has been given out.
    Exhausted,
    /// A stored log record cannot be read.
    Undecodable,
}

/// The message queues and the conversation log.
pub struct Store {
    db: redb::Database,
}

impl Store {
    /// The waiting messages, by their keys.
    pub closed spec fn messages(&self) -> Map<Seq<char>, Seq<u8>> {
        byte_table(self.db, MESSAGES@)
    }

    /// The next sequence number.
    pub closed spec fn next_seq(&self) -> u64 {
        match stored(number_table(self.db, META@), NEXT_SEQ@) {
            Some(n) => n,
            None => 0,
        }
    }

    /// The log records, by their message ids.
    pub closed spec fn log(&self) -> Map<Seq<char>, Seq<u8>> {
        byte_table(self.db, LOG@)
    }

    /// The message ids, by peer and time.
    pub closed spec fn index(&self) -> Map<Seq<char>, Seq<char>> {
        text_table(self.db, LOG_INDEX@)
    }

    /// The path of the file that holds the store; nothing for one in memory.
    pub closed spec fn file(&self) -> Option<Seq<char>> {
        file_of(self.db)
    }

    /// What waits for a recipient, oldest first.
    pub open spec fn queue(&self, recipient: Seq<char>) -> Seq<(Seq<char>, Seq<u8>)> {
        queue_of(self.messages(), recipient)
    }

    /// The message ids of a peer's log records, oldest first.
    pub open spec fn ids_of(&self, peer: Seq<char>) -> Seq<(Seq<char>, Seq<char>)> {
        listing(self.index(), peer.push('\0'), peer.push('\u{1}'))
    }

    /// The store is finite.
    pub closed spec fn wf(&self) -> bool {
        tables_are_finite(self.db)
    }

    /// What a well-formed store holds is finite.
    pub proof fn is_finite(&self)
        requires
            self.wf(),
        ensures
            self.messages().dom().finite(),
    {
    }

    /// Neither the log nor its index differs.
    pub open spec fn same_log(&self, other: &Store) -> bool {
        self.log() == other.log() && self.index() == other.index()
    }

    /// Neither the messages nor the next sequence number differ.
    pub open spec fn same_queues(&self, other: &Store) -> bool {
        self.messages() == other.messages() && self.next_seq() == other.next_seq()
    }

    /// The durable store in a file, which is made where there is none.
    pub fn on_disk(path: &str) -> (r: Result<Store, StoreError>)
        ensures
            r matches Ok(s) ==> s.wf() && s.file() == Some(path@),
            r matches Err(e) ==> e is Database,
    {
        match open_file(path) {
            Ok(db) => Ok(Store { db }),
            Err(e) => Err(StoreError::Database(e)),
        }
    }

    /// A new store in memory, of which nothing persists.
    pub fn in_memory() -> (r: Result<Store, StoreError>)
        ensures
            r matches Ok(s) ==> {
                &&& s.wf()
                &&& s.file() is None
                &&& s.messages() == Map::<Seq<char>, Seq<u8>>::empty()
                &&& s.next_seq() == 0
                &&& s.log() == Map::<Seq<char>, Seq<u8>>::empty()
                &&& s.index() == Map::<Seq<char>, Seq<char>>::empty()
            },
            r matches Err(e) ==> e is Database,
    {
        match open_memory() {
            Ok(db) => Ok(Store { db }),
            Err(e) => Err(StoreError::Database(e)),
        }
    }

    /// Appends a value to a recipient's queue, and returns the key to acknowledge it by.
    pub fn enqueue(&mut self, recipient: String, value: Vec<u8>) -> (r: Result<String, StoreError>)
        requires
            old(self).wf(),
        ensures
            final(self).wf(),
            final(self).file() == old(self).file(),
            match r {
                Ok(key) => {
                    &&& old(self).next_seq() < u64::MAX
                    &&& key@ == message_key(recipient@, old(self).next_seq() as nat)
                    &&& final(self).messages() == old(self).messages().insert(key@, value@)
                    &&& final(self).next_seq() == old(self).next_seq() + 1
                    &&& final(self).same_log(old(self))
                },
                Err(e) => {
                    &&& e !is Undecodable
                    &&& e is Exhausted ==> old(self).next_seq() == u64::MAX && *final(self)
                        == *old(self)
                },
            },
    {
        proof {
            table_names_are_distinct();
        }
        let seq: u64 = match get_number(&self.db, META, NEXT_SEQ) {
            Ok(Some(n)) => n,
            Ok(None) => 0,
            Err(e) => return Err(StoreError::Database(e)),
        };
        if seq == u64::MAX {
            return Err(StoreError::Exhausted);
        }
        let key = msg_key(recipient.as_str(), seq);
        match put_number_and_bytes(
            &mut self.db,
            META,
            NEXT_SEQ,
            seq + 1,
            MESSAGES,
            key.as_str(),
            &value,
        ) {
            Ok(()) => Ok(key),
            Err(e) => Err(StoreError::Database(e)),
        }
    }

    /// Everything that waits for a recipient, oldest first.
    pub fn list(&self, recipient: String) -> (r: Result<Vec<(String, Vec<u8>)>, StoreError>)
        ensures
            match r {
                Ok(v) => byte_pairs(v@) == self.queue(recipient@),
                Err(e) => e is Database,
            },
    {
        proof {
            table_names_are_distinct();
        }
        let (lo, hi) = recipient_bounds(recipient.as_str());
        match scan_bytes(&self.db, MESSAGES, lo.as_str(), hi.as_str()) {
            Ok(v) => {
                proof {
                    listing_is(self.messages(), lo@, hi@, byte_pairs(v@));
                }
                Ok(v)
            },
            Err(e) => Err(StoreError::Database(e)),
        }
    }

    /// The oldest message that waits for a recipient, which stays where it is.
    pub fn peek_oldest(&self, recipient: String) -> (r: Result<
        Option<(String, Vec<u8>)>,
        StoreError,
    >)
        ensures
            match r {
                Ok(Some(p)) => self.queue(recipient@).len() > 0 && self.queue(recipient@)[0] == (
                    p.0@,
                    p.1@,
                ),
                Ok(None) => self.queue(recipient@).len() == 0,
                Err(e) => e is Database,
            },
    {
        match self.list(recipient) {
            Ok(v) => {
                let mut v = v;
                if v.len() == 0 {
                    assert(byte_pairs(v@).len() == 0);
                    Ok(None)
                } else {
                    assert(byte_pairs(v@)[0] == (v@[0].0@, v@[0].1@));
                    Ok(Some(v.swap_remove(0)))
                }
            },
            Err(e) => Err(e),
        }
    }

    /// How many messages wait for a recipient.
    pub fn depth(&self, recipient: String) -> (r: Result<usize, StoreError>)
        ensures
            match r {
                Ok(n) => n == self.queue(recipient@).len(),
                Err(e) => e is Database,
            },
    {
        match self.list(recipient) {
            Ok(v) => {
                assert(byte_pairs(v@).len() == v@.len());
                Ok(v.len())
            },
            Err(e) => Err(e),
        }
    }

    /// Removes an acknowledged message by its key. A key that is not there is no error.
    pub fn ack(&mut self, key: String) -> (r: Result<(), StoreError>)
        requires
            old(self).wf(),
        ensures
            final(self).wf(),
            final(self).file() == old(self).file(),
            match r {
                Ok(()) => {
                    &&& final(self).messages() == old(self).messages().remove(key@)
                    &&& final(self).next_seq() == old(self).next_seq()
                    &&& final(self).same_log(old(self))
                },
                Err(e) => e is Database,
            },
    {
        proof {
            table_names_are_distinct();
        }
        match remove_bytes(&mut self.db, MESSAGES, key.as_str()) {
            Ok(()) => Ok(()),
            Err(e) => Err(StoreError::Database(e)),
        }
    }

    /// Writes a log record and its place in time, both in place of those of a record with the same
    /// message id. Of a record that cannot be read the place is not known, and stays.
    pub fn log_put(&mut self, rec: LogRecord) -> (r: Result<(), StoreError>)
        requires
            old(self).wf(),
        ensures
            final(self).wf(),
            final(self).file() == old(self).file(),
            match r {
                Ok(()) => {
                    &&& final(self).log() == old(self).log().insert(rec@.msg_id, record_bytes(rec@))
                    &&& final(self).index() == index_with(
                        old(self).log(),
                        old(self).index(),
                        rec@,
                    )
                    &&& final(self).same_queues(old(self))
                    &&& logged(final(self).log(), rec@.msg_id) == Some(Some(rec@))
                },
                Err(e) => e is Database,
            },
    {
        proof {
            table_names_are_distinct();
        }
        let place = log_index_key(rec.peer.as_str(), rec.ts, rec.msg_id.as_str());
        let stale = match self.log_get(rec.msg_id.clone()) {
            Ok(Some(prev)) => log_index_key(prev.peer.as_str(), prev.ts, prev.msg_id.as_str()),
            Ok(None) | Err(StoreError::Undecodable) | Err(StoreError::Exhausted) => place.clone(),
            Err(StoreError::Database(e)) => return Err(StoreError::Database(e)),
        };
        let bytes = rec.to_bytes();
        proof {
            assert(self.index().remove(place@).insert(place@, rec@.msg_id)
                =~= self.index().insert(place@, rec@.msg_id));
        }
        match put_bytes_and_text(
            &mut self.db,
            LOG,
            rec.msg_id.as_str(),
            &bytes,
            LOG_INDEX,
            stale.as_str(),
            place.as_str(),
            rec.msg_id.as_str(),
        ) {
            Ok(()) => Ok(()),
            Err(e) => Err(StoreError::Database(e)),
        }
    }

    /// The log record of a message.
    pub fn log_get(&self, msg_id: String) -> (r: Result<Option<LogRecord>, StoreError>)
        ensures
            match r {
                Ok(Some(rec)) => logged(self.log(), msg_id@) == Some(Some(rec@)),
                Ok(None) => logged(self.log(), msg_id@) == Some(None::<RecordView>),
                Err(e) => e !is Exhausted && (e is Undecodable ==> logged(self.log(), msg_id@)
                    is None),
            },
    {
        proof {
            table_names_are_distinct();
        }
        match get_bytes(&self.db, LOG, msg_id.as_str()) {
            Ok(Some(bytes)) => match LogRecord::from_bytes(&bytes) {
                Some(rec) => Ok(Some(rec)),
                None => Err(StoreError::Undecodable),
            },
            Ok(None) => Ok(None),
            Err(e) => Err(StoreError::Database(e)),
        }
    }

    /// Sets the state of a message's log record. An unknown message changes nothing.
    pub fn log_set_state(&mut self, msg_id: String, state: String) -> (r: Result<(), StoreError>)
        requires
            old(self).wf(),
        ensures
            final(self).wf(),
            final(self).file() == old(self).file(),
            match r {
                Ok(()) => {
                    &&& final(self).same_queues(old(self))
                    &&& final(self).index() == old(self).index()
                    &&& match logged(old(self).log(), msg_id@) {
                        None => false,
                        Some(None) => final(self).log() == old(self).log(),
                        Some(Some(rec)) => final(self).log() == old(self).log().insert(
                            msg_id@,
                            record_bytes(RecordView { state: state@, ..rec }),
                        ) && logged(final(self).log(), msg_id@) == Some(
                            Some(RecordView { state: state@, ..rec }),
                        ),
                    }
                },
                Err(e) => e !is Exhausted && (e is Undecodable ==> logged(
                    old(self).log(),
                    msg_id@,
                ) is None && *final(self) == *old(self)),
            },
    {
        proof {
            table_names_are_distinct();
        }
        let id = msg_id.clone();
        let rec = match self.log_get(id) {
            Ok(Some(rec)) => rec,
            Ok(None) => return Ok(()),
            Err(e) => return Err(e),
        };
        let updated = LogRecord { state, ..rec };
        let bytes = updated.to_bytes();
        match put_bytes(&mut self.db, LOG, msg_id.as_str(), &bytes) {
            Ok(()) => Ok(()),
            Err(e) => Err(StoreError::Database(e)),
        }
    }

    /// The most recent `limit` log records of a peer, oldest first.
    pub fn log_by_peer(&self, peer: String, limit: usize) -> (r: Result<
        Vec<LogRecord>,
        StoreError,
    >)
        ensures
            match r {
                Ok(v) => history(self.log(), recent(self.ids_of(peer@), limit as nat)) == Some(
                    record_views(v@),
                ),
                Err(e) => e !is Exhausted && (e is Undecodable ==> history(
                    self.log(),
                    recent(self.ids_of(peer@), limit as nat),
                ) is None),
            },
    {
        proof {
            table_names_are_distinct();
        }
        let (lo, hi) = recipient_bounds(peer.as_str());
        let ids = match scan_texts(&self.db, LOG_INDEX, lo.as_str(), hi.as_str()) {
            Ok(v) => v,
            Err(e) => return Err(StoreError::Database(e)),
        };
        let ghost all = text_pairs(ids@);
        proof {
            listing_is(self.index(), lo@, hi@, all);
        }
        let start: usize = if ids.len() > limit {
            ids.len() - limit
        } else {
            0
        };
        let ghost wanted = recent(all, limit as nat);
        assert(wanted =~= all.skip(start as int));
        let mut out: Vec<LogRecord> = Vec::new();
        let mut i: usize = start;
        assert(wanted.take(0) =~= Seq::<(Seq<char>, Seq<char>)>::empty());
        assert(record_views(out@) =~= Seq::<RecordView>::empty());
        while i < ids.len()
            invariant
                start <= i <= ids@.len(),
                all == text_pairs(ids@),
                all == self.ids_of(peer@),
                wanted == recent(all, limit as nat),
                wanted == all.skip(start as int),
                history(self.log(), wanted.take(i - start)) == Some(record_views(out@)),
            decreases ids@.len() - i,
        {
            let ghost done = record_views(out@);
            let ghost n = i - start;
            assert(wanted.take(n + 1).drop_last() =~= wanted.take(n));
            assert(wanted[n] == (ids@[i as int].0@, ids@[i as int].1@));
            match self.log_get(ids[i].1.clone()) {
                Ok(Some(rec)) => {
                    out.push(rec);
                    assert(record_views(out@) =~= done.push(rec@));
                },
                Ok(None) => {},
                Err(e) => {
                    proof {
                        if e is Undecodable {
                            history_fails_early(self.log(), wanted, n + 1);
                        }
                    }
                    return Err(e);
                },
            }
            i += 1;
        }
        assert(wanted.take(wanted.len() as int) =~= wanted);
        Ok(out)
    }
}

/// The log record of a message: `None` where it cannot be read, nothing where there is none.
pub open spec fn logged(log: Map<Seq<char>, Seq<u8>>, msg_id: Seq<char>) -> Option<
    Option<RecordView>,
> {
    match stored(log, msg_id) {
        None => Some(None),
        Some(bytes) => match record_of_bytes(bytes) {
            Some(rec) => Some(Some(rec)),
            None => None,
        },
    }
}

/// The place of a record in the index.
pub open spec fn place_of(r: RecordView) -> Seq<char> {
    entry_key(r.peer, r.ts as nat, r.msg_id)
}

/// The index with a record in it, in place of the record that the log holds under its message id.
pub open spec fn index_with(
    log: Map<Seq<char>, Seq<u8>>,
    index: Map<Seq<char>, Seq<char>>,
    r: RecordView,
) -> Map<Seq<char>, Seq<char>> {
    let others = match logged(log, r.msg_id) {
        Some(Some(prev)) => index.remove(place_of(prev)),
        _ => index,
    };
    others.insert(place_of(r), r.msg_id)
}

/// The record stands under its own message id, and its peer's name holds no NUL.
pub open spec fn is_filed(log: Map<Seq<char>, Seq<u8>>, id: Seq<char>) -> bool {
    logged(log, id) matches Some(Some(r)) && r.msg_id == id && nul_free(r.peer)
}

/// The index has the place of every record, and no other.
pub open spec fn index_agrees(
    log: Map<Seq<char>, Seq<u8>>,
    index: Map<Seq<char>, Seq<char>>,
) -> bool {
    &&& forall|id: Seq<char>| #[trigger]
        log.contains_key(id) ==> is_filed(log, id) && index.contains_key(
            place_of(logged(log, id)->0->0),
        ) && index[place_of(logged(log, id)->0->0)] == id
    &&& forall|place: Seq<char>| #[trigger]
        index.contains_key(place) ==> log.contains_key(index[place]) && place == place_of(
            logged(log, index[place])->0->0,
        )
}

proof fn place_names_its_message(a: RecordView, b: RecordView)
    requires
        nul_free(a.peer),
        nul_free(b.peer),
        place_of(a) == place_of(b),
    ensures
        a.msg_id == b.msg_id,
{
    let x = padded_text(a.ts as nat, 20).push('\0') + a.msg_id;
    let y = padded_text(b.ts as nat, 20).push('\0') + b.msg_id;
    assert(place_of(a) =~= a.peer.push('\0') + x);
    assert(place_of(b) =~= b.peer.push('\0') + y);
    first_nul_splits(a.peer, x, b.peer, y);
    padded_text_has_len(a.ts as nat, 20);
    padded_text_has_len(b.ts as nat, 20);
    assert(x.skip(21) =~= a.msg_id && y.skip(21) =~= b.msg_id);
}

/// Writing a record, for the first time or again, keeps the index in agreement with the log.
pub proof fn writing_keeps_the_index(
    log: Map<Seq<char>, Seq<u8>>,
    index: Map<Seq<char>, Seq<char>>,
    r: RecordView,
    bytes: Seq<u8>,
)
    requires
        index_agrees(log, index),
        nul_free(r.peer),
        record_of_bytes(bytes) == Some(r),
    ensures
        index_agrees(log.insert(r.msg_id, bytes), index_with(log, index, r)),
{
    let after = log.insert(r.msg_id, bytes);
    let listed = index_with(log, index, r);
    assert(logged(after, r.msg_id) == Some(Some(r)));
    assert forall|id: Seq<char>| #[trigger] after.contains_key(id) implies is_filed(after, id)
        && listed.contains_key(place_of(logged(after, id)->0->0)) && listed[place_of(
        logged(after, id)->0->0,
    )] == id by {
        if id != r.msg_id {
            assert(log.contains_key(id));
            assert(logged(after, id) == logged(log, id));
            let other = logged(log, id)->0->0;
            if place_of(other) == place_of(r) {
                place_names_its_message(other, r);
            }
            if log.contains_key(r.msg_id) {
                assert(is_filed(log, r.msg_id));
            }
        }
    }
    assert forall|place: Seq<char>| #[trigger] listed.contains_key(place) implies after.contains_key(
        listed[place],
    ) && place == place_of(logged(after, listed[place])->0->0) by {
        if place != place_of(r) {
            assert(index.contains_key(place));
            let id = index[place];
            assert(log.contains_key(id));
            if id == r.msg_id {
                assert(place == place_of(logged(log, id)->0->0));
            }
        }
    }
}

/// A change of a record's state keeps the index in agreement with the log.
pub proof fn marking_keeps_the_index(
    log: Map<Seq<char>, Seq<u8>>,
    index: Map<Seq<char>, Seq<char>>,
    id: Seq<char>,
    state: Seq<char>,
    bytes: Seq<u8>,
)
    requires
        index_agrees(log, index),
        log.contains_key(id),
        record_of_bytes(bytes) == Some(RecordView { state, ..logged(log, id)->0->0 }),
    ensures
        index_agrees(log.insert(id, bytes), index),
{
    let r = RecordView { state, ..logged(log, id)->0->0 };
    assert(is_filed(log, id));
    writing_keeps_the_index(log, index, r, bytes);
    assert(index_with(log, index, r) =~= index);
}

/// Where the index agrees with the log, a peer's history lists no message twice, and lists every
/// record of that peer, at its own time: a record that is written again is listed once.
pub proof fn history_lists_each_message_once(
    log: Map<Seq<char>, Seq<u8>>,
    index: Map<Seq<char>, Seq<char>>,
    peer: Seq<char>,
    rows: Seq<(Seq<char>, Seq<char>)>,
)
    requires
        index_agrees(log, index),
        is_listing(index, peer.push('\0'), peer.push('\u{1}'), rows),
    ensures
        forall|i: int, j: int|
            0 <= i < j < rows.len() ==> (#[trigger] rows[i]).1 != (#[trigger] rows[j]).1,
        forall|id: Seq<char>| #[trigger]
            log.contains_key(id) && logged(log, id)->0->0.peer == peer ==> exists|i: int|
                0 <= i < rows.len() && #[trigger] rows[i] == (
                    place_of(logged(log, id)->0->0),
                    id,
                ),
{
    sorted_keys_are_distinct(rows);
    assert forall|i: int, j: int| 0 <= i < j < rows.len() implies (#[trigger] rows[i]).1 != (
    #[trigger] rows[j]).1 by {
        assert(index.contains_key(rows[i].0) && index.contains_key(rows[j].0));
        assert(rows[i].0 != rows[j].0);
    }
    assert forall|id: Seq<char>| #[trigger]
        log.contains_key(id) && logged(log, id)->0->0.peer == peer implies exists|i: int|
        0 <= i < rows.len() && #[trigger] rows[i] == (place_of(logged(log, id)->0->0), id) by {
        let place = place_of(logged(log, id)->0->0);
        assert(place.subrange(0, peer.len() as int + 1) =~= peer.push('\0'));
        range_is_prefix(peer, place);
        assert(index.contains_key(place));
        assert(lists_key(rows, place));
        let i = choose|i: int| 0 <= i < rows.len() && (#[trigger] rows[i]).0 == place;
        assert(rows[i] == (place, id));
    }
}

/// The contents of log records.
pub open spec fn record_views(v: Seq<LogRecord>) -> Seq<RecordView> {
    v.map_values(|r: LogRecord| r@)
}

/// The last `limit` of the entries.
pub open spec fn recent(entries: Seq<(Seq<char>, Seq<char>)>, limit: nat) -> Seq<
    (Seq<char>, Seq<char>),
> {
    if entries.len() > limit {
        entries.skip(entries.len() - limit)
    } else {
        entries
    }
}

/// The log records of the listed messages, of those that have one; `None` where one cannot be
/// read.
pub open spec fn history(
    log: Map<Seq<char>, Seq<u8>>,
    entries: Seq<(Seq<char>, Seq<char>)>,
) -> Option<Seq<RecordView>>
    decreases entries.len(),
{
    if entries.len() == 0 {
        Some(Seq::empty())
    } else {
        match history(log, entries.drop_last()) {
            None => None,
            Some(records) => match logged(log, entries.last().1) {
                None => None,
                Some(None) => Some(records),
                Some(Some(rec)) => Some(records.push(rec)),
            },
        }
    }
}

proof fn history_fails_early(
    log: Map<Seq<char>, Seq<u8>>,
    entries: Seq<(Seq<char>, Seq<char>)>,
    n: int,
)
    requires
        0 <= n <= entries.len(),
        history(log, entries.take(n)) is None,
    ensures
        history(log, entries) is None,
    decreases entries.len() - n,
{
    if n < entries.len() {
        assert(entries.take(n + 1).drop_last() =~= entries.take(n));
        history_fails_early(log, entries, n + 1);
    } else {
        assert(entries.take(n) =~= entries);
    }
}

/// A message has a record if and only if one is stored under its id: the one that the bytes write.
pub proof fn record_is_the_stored_one(log: Map<Seq<char>, Seq<u8>>, msg_id: Seq<char>)
    ensures
        !log.contains_key(msg_id) ==> logged(log, msg_id) == Some(None::<RecordView>),
        log.contains_key(msg_id) ==> match record_of_bytes(log[msg_id]) {
            Some(r) => logged(log, msg_id) == Some(Some(r)),
            None => logged(log, msg_id) is None,
        },
{
}

/// The most recent entries are the last ones, as many as were asked for or, where there are fewer,
/// all of them.
pub proof fn recent_entries_are_the_last(entries: Seq<(Seq<char>, Seq<char>)>, limit: nat)
    ensures
        recent(entries, limit).is_suffix_of(entries),
        recent(entries, limit).len() == if entries.len() < limit {
            entries.len()
        } else {
            limit
        },
{
    let r = recent(entries, limit);
    assert(entries.subrange(entries.len() - r.len(), entries.len() as int) =~= r);
}

/// The history of messages that all have their records is those records, in the order of the
/// messages; it fails if and only if one of the records cannot be read.
pub proof fn history_is_of_the_listed(
    log: Map<Seq<char>, Seq<u8>>,
    entries: Seq<(Seq<char>, Seq<char>)>,
)
    ensures
        history(log, entries) is None <==> exists|i: int|
            0 <= i < entries.len() && logged(log, (#[trigger] entries[i]).1) is None,
        (forall|i: int|
            0 <= i < entries.len() ==> logged(log, (#[trigger] entries[i]).1) is Some && logged(
                log,
                entries[i].1,
            )->0 is Some) ==> {
            &&& history(log, entries) is Some
            &&& history(log, entries)->0.len() == entries.len()
            &&& forall|i: int|
                0 <= i < entries.len() ==> logged(log, (#[trigger] entries[i]).1) == Some(
                    Some(history(log, entries)->0[i]),
                )
        },
    decreases entries.len(),
{
    if entries.len() > 0 {
        let front = entries.drop_last();
        let n = front.len() as int;
        history_is_of_the_listed(log, front);
        assert(entries[n] == entries.last());
        assert forall|i: int| 0 <= i < n implies #[trigger] entries[i] == front[i] by {}
        if history(log, front) is None {
            let i = choose|i: int|
                0 <= i < front.len() && logged(log, (#[trigger] front[i]).1) is None;
            assert(logged(log, entries[i].1) is None);
        }
        if exists|i: int| 0 <= i < entries.len() && logged(log, (#[trigger] entries[i]).1) is None {
            let i = choose|i: int|
                0 <= i < entries.len() && logged(log, (#[trigger] entries[i]).1) is None;
            if i < n {
                assert(logged(log, front[i].1) is None);
            }
        }
        if forall|i: int|
            0 <= i < entries.len() ==> logged(log, (#[trigger] entries[i]).1) is Some && logged(
                log,
                entries[i].1,
            )->0 is Some {
            assert forall|i: int| 0 <= i < front.len() implies logged(log, (#[trigger] front[i]).1)
                is Some && logged(log, front[i].1)->0 is Some by {
                assert(front[i] == entries[i]);
            }
            assert(logged(log, entries[n].1) is Some);
            let records = history(log, front)->0;
            let all = history(log, entries)->0;
            assert forall|i: int| 0 <= i < entries.len() implies logged(
                log,
                (#[trigger] entries[i]).1,
            ) == Some(Some(all[i])) by {
                if i < n {
                    assert(logged(log, front[i].1) == Some(Some(records[i])));
                    assert(all[i] == records[i]);
                }
            }
        }
    }
}

/// The words of the two directions, as they are stored.
pub proof fn direction_words_are(word: Seq<char>)
    ensures
        Dir::In.tag() == "in"@,
        Dir::Out.tag() == "out"@,
        dir_of_tag("in"@) == Some(Dir::In),
        dir_of_tag("out"@) == Some(Dir::Out),
        word != "in"@ && word != "out"@ ==> dir_of_tag(word) is None,
{
    record_keys_differ();
}

/// A record stands in the index under its peer, its time and its message's id, in place of what
/// the log held for that message.
pub proof fn record_is_indexed(
    log: Map<Seq<char>, Seq<u8>>,
    index: Map<Seq<char>, Seq<char>>,
    r: RecordView,
    place: Seq<char>,
)
    ensures
        place_of(r) == r.peer.push('\0') + padded_text(r.ts as nat, 20) + seq!['\0'] + r.msg_id,
        index_with(log, index, r).contains_key(place_of(r)),
        index_with(log, index, r)[place_of(r)] == r.msg_id,
        place != place_of(r) ==> (index_with(log, index, r).contains_key(place) <==> {
            &&& index.contains_key(place)
            &&& !(logged(log, r.msg_id) is Some && logged(log, r.msg_id)->0 is Some && place
                == place_of(logged(log, r.msg_id)->0->0))
        }),
        place != place_of(r) && index_with(log, index, r).contains_key(place) ==> index_with(
            log,
            index,
            r,
        )[place] == index[place],
{
    assert(place_of(r) =~= r.peer.push('\0') + padded_text(r.ts as nat, 20) + seq!['\0'] + r.msg_id);
}

/// The names under which a store file keeps its tables.
pub proof fn tables_are_named()
    ensures
        MESSAGES@ == "messages"@,
        META@ == "meta"@,
        NEXT_SEQ@ == "next_seq"@,
        LOG@ == "log"@,
        LOG_INDEX@ == "log_index"@,
{
}

/// What a record object says is what its fields say; a record without a text is of a withheld body.
pub proof fn record_is_read_by_its_fields(t: JsonTree)
    requires
        t is Object,
    ensures
        record_of(t) matches Some(r) ==> {
            &&& t.get_text("msg_id"@) == Some(r.msg_id)
            &&& t.get_text("peer"@) == Some(r.peer)
            &&& t.get_text("text"@) == r.text
            &&& t.get("ts"@) == Some(JsonTree::Whole(r.ts))
            &&& t.get_text("state"@) == Some(r.state)
            &&& t.get_text("dir"@) matches Some(word) ==> word == r.dir.tag()
        },
{
}

/// Stores with the same log, or with the same queues, hold the same of it.
pub proof fn same_is_unchanged(a: Store, b: Store)
    ensures
        a.same_log(&b) <==> a.log() == b.log() && a.index() == b.index(),
        a.same_queues(&b) <==> a.messages() == b.messages() && a.next_seq() == b.next_seq(),
{
}

} // verus!
