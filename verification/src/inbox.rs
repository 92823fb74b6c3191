//! The hand-over of a verified message to the session: pushed over a channel, or appended to a
//! local inbox that a listener drains and shows.
//!
//! What a peer controls is escaped before it goes into the block that is shown, so that no text
//! can pass for a block of another sender.
use crate::codec::{empty_object_is, opt_sets, status_word, with_opt, with_sets};
use crate::identity::{opt_copy, opt_text, TaskStatus};
use crate::json::{
    empty_object, parsed_json, rendered_json, with_is_plain, Json, JsonTree,
};
use crate::text::{
    chars_of, decimal_reads_back, decimal_text, eq_ignore_ascii_case, is_blank, is_white, line_end,
    lines, lines_of, no_white_trims_to_itself, number_of, parse_number, push_char, push_decimal,
    same_ignoring_case, same_text, texts, trim, trim_end, trim_start, trimmed, without_return,
};
use crate::wire::utf8_is_injective;
use vstd::prelude::*;
use vstd::utf8::{encode_utf8, encode_utf8_valid_utf8, valid_utf8};

verus! {

/// What is handed to the session of one message.
#[derive(Debug, Clone, PartialEq, Eq)]
pub struct Note {
    pub content: String,
    pub sender: String,
    pub msg_id: String,
    pub task_id: Option<String>,
    pub status: Option<TaskStatus>,
    pub in_reply_to: Option<String>,
}

/// The contents of a note.
pub struct NoteView {
    pub content: Seq<char>,
    pub sender: Seq<char>,
    pub msg_id: Seq<char>,
    pub task_id: Option<Seq<char>>,
    pub status: Option<TaskStatus>,
    pub in_reply_to: Option<Seq<char>>,
}

impl View for Note {
    type V = NoteView;

    open spec fn view(&self) -> NoteView {
        NoteView {
            content: self.content@,
            sender: self.sender@,
            msg_id: self.msg_id@,
            task_id: opt_text(self.task_id),
            status: self.status,
            in_reply_to: opt_text(self.in_reply_to),
        }
    }
}

/// An object with the note's attributes. Absent ones are left out.
pub open spec fn with_attributes(t: JsonTree, n: NoteView) -> JsonTree {
    let t = t.with("sender"@, JsonTree::Text(n.sender)).with("msg_id"@, JsonTree::Text(n.msg_id));
    let t = with_opt(t, "task_id"@, n.task_id);
    let t = with_opt(t, "status"@, status_word(n.status));
    with_opt(t, "in_reply_to"@, n.in_reply_to)
}

/// The JSON object that the inbox holds for a note.
pub open spec fn note_tree(n: NoteView) -> JsonTree {
    with_attributes(empty_object().with("content"@, JsonTree::Text(n.content)), n)
}

/// What is pushed over a channel for a note.
pub open spec fn push_tree(n: NoteView) -> JsonTree {
    empty_object().with("content"@, JsonTree::Text(n.content)).with(
        "meta"@,
        with_attributes(empty_object(), n),
    )
}

/// A character as it stands in a block.
pub open spec fn escaped_char(c: char) -> Seq<char> {
    if c == '&' {
        "&amp;"@
    } else if c == '<' {
        "&lt;"@
    } else if c == '>' {
        "&gt;"@
    } else if c == '"' {
        "&quot;"@
    } else {
        seq![c]
    }
}

/// A text as it stands in a block.
pub open spec fn escaped(s: Seq<char>) -> Seq<char>
    decreases s.len(),
{
    if s.len() == 0 {
        Seq::empty()
    } else {
        escaped(s.drop_last()) + escaped_char(s.last())
    }
}

/// A text as it stands in a block.
pub fn escape(s: &str) -> (r: String)
    ensures
        r@ == escaped(s@),
{
    let v = chars_of(s);
    let mut out = String::new();
    let mut i: usize = 0;
    assert(v@.take(0) =~= Seq::<char>::empty());
    while i < v.len()
        invariant
            v@ == s@,
            i <= v@.len(),
            out@ == escaped(v@.take(i as int)),
        decreases v@.len() - i,
    {
        let ghost before = out@;
        assert(v@.take(i + 1).drop_last() =~= v@.take(i as int));
        let c: char = v[i];
        if c == '&' {
            out.append("&amp;");
        } else if c == '<' {
            out.append("&lt;");
        } else if c == '>' {
            out.append("&gt;");
        } else if c == '"' {
            out.append("&quot;");
        } else {
            push_char(&mut out, c);
            assert(out@ =~= before + seq![c]);
        }
        assert(out@ == before + escaped_char(c));
        i += 1;
    }
    assert(v@.take(v@.len() as int) =~= v@);
    out
}

/// One attribute of a block, if it is there.
pub open spec fn attribute(label: Seq<char>, value: Option<Seq<char>>) -> Seq<char> {
    match value {
        Some(v) => " "@ + label + "=\""@ + escaped(v) + "\""@,
        None => Seq::empty(),
    }
}

/// The sender that a stored object names.
pub open spec fn shown_sender(t: JsonTree) -> Seq<char> {
    escaped(
        match t.get_text("sender"@) {
            Some(s) => s,
            None => "peer"@,
        },
    )
}

/// What stands before the block of a stored object.
pub open spec fn block_head(t: JsonTree) -> Seq<char> {
    "[interlink peer message from "@ + shown_sender(t) + "] act on this:\n"@
}

/// The content of a stored object.
pub open spec fn shown_content(t: JsonTree) -> Seq<char> {
    match t.get_text("content"@) {
        Some(s) => escaped(s),
        None => Seq::empty(),
    }
}

/// What is shown of a stored object: it reads as a peer's message to act on.
pub open spec fn block(t: JsonTree) -> Seq<char> {
    block_head(t) + "<interlink sender=\""@ + shown_sender(t) + "\""@ + attribute(
        "msg_id"@,
        t.get_text("msg_id"@),
    ) + attribute("task"@, t.get_text("task_id"@)) + attribute("status"@, t.get_text("status"@))
        + attribute("in_reply_to"@, t.get_text("in_reply_to"@)) + ">\n"@ + shown_content(t)
        + "\n</interlink>"@
}

/// What is shown of one line of the inbox. A line that is not JSON is shown as it is.
pub open spec fn line_block(line: Seq<char>) -> Seq<char> {
    match parsed_json(encode_utf8(line)) {
        Some(t) => block(t),
        None => line,
    }
}

fn push_attribute(out: &mut String, label: &str, value: Option<&str>)
    ensures
        final(out)@ == old(out)@ + attribute(label@, crate::identity::opt_str(value)),
{
    let ghost before = out@;
    match value {
        Some(v) => {
            out.append(" ");
            out.append(label);
            out.append("=\"");
            out.append(escape(v).as_str());
            out.append("\"");
            assert(out@ =~= before + attribute(label@, Some(v@)));
        },
        None => {
            assert(out@ =~= before + attribute(label@, None));
        },
    }
}

/// What is shown of one line of the inbox.
pub fn render_inbox_line(line: &str) -> (r: String)
    ensures
        r@ == line_block(line@),
{
    let j = match Json::parse(line) {
        Some(j) => j,
        None => return line.to_string(),
    };
    let sender = match j.get_str("sender") {
        Some(s) => escape(s),
        None => escape("peer"),
    };
    let content = match j.get_str("content") {
        Some(s) => escape(s),
        None => String::new(),
    };
    let mut out = "[interlink peer message from ".to_string();
    out.append(sender.as_str());
    out.append("] act on this:\n");
    out.append("<interlink sender=\"");
    out.append(sender.as_str());
    out.append("\"");
    push_attribute(&mut out, "msg_id", j.get_str("msg_id"));
    push_attribute(&mut out, "task", j.get_str("task_id"));
    push_attribute(&mut out, "status", j.get_str("status"));
    push_attribute(&mut out, "in_reply_to", j.get_str("in_reply_to"));
    out.append(">\n");
    out.append(content.as_str());
    out.append("\n</interlink>");
    out
}

/// What is shown of the lines: the block of each that is not blank, each followed by a line end.
pub open spec fn shown(all: Seq<Seq<char>>) -> Seq<char>
    decreases all.len(),
{
    if all.len() == 0 {
        Seq::empty()
    } else {
        (if trimmed(all[0]).len() == 0 {
            Seq::empty()
        } else {
            line_block(all[0]) + "\n"@
        }) + shown(all.drop_first())
    }
}

/// What is shown of a part of the inbox.
pub open spec fn inbox_of(text: Seq<char>) -> Seq<char> {
    shown(lines_of(text))
}

/// What is shown of a part of the inbox.
pub fn render_inbox(text: &str) -> (r: String)
    ensures
        r@ == inbox_of(text@),
{
    let all = lines(text);
    let ghost wanted = texts(all@);
    let mut out = String::new();
    let mut i: usize = 0;
    assert(wanted.skip(0) =~= wanted);
    assert(out@ + shown(wanted) =~= shown(wanted));
    while i < all.len()
        invariant
            i <= all@.len(),
            wanted == texts(all@),
            out@ + shown(wanted.skip(i as int)) == shown(wanted),
        decreases all@.len() - i,
    {
        let ghost before = out@;
        let ghost rest = wanted.skip(i + 1);
        assert(wanted.skip(i as int).drop_first() =~= rest);
        assert(wanted.skip(i as int)[0] == all@[i as int]@);
        if !is_blank(all[i].as_str()) {
            out.append(render_inbox_line(all[i].as_str()).as_str());
            out.append("\n");
            assert(out@ + shown(rest) =~= before + ((line_block(all@[i as int]@) + "\n"@) + shown(
                rest,
            )));
        } else {
            assert(Seq::<char>::empty() + shown(rest) =~= shown(rest));
        }
        i += 1;
    }
    assert(wanted.skip(i as int) =~= Seq::<Seq<char>>::empty());
    assert(out@ + Seq::<char>::empty() =~= out@);
    out
}

proof fn line_end_before(s: Seq<char>, rest: Seq<char>)
    requires
        !s.contains('\n'),
    ensures
        line_end(s + seq!['\n'] + rest) == s.len(),
    decreases s.len(),
{
    let all = s + seq!['\n'] + rest;
    if s.len() > 0 {
        let t = s.drop_first();
        assert(all.drop_first() =~= t + seq!['\n'] + rest);
        assert(s.contains(s[0]));
        assert forall|i: int| 0 <= i < t.len() implies t[i] != '\n' by {
            assert(s.contains(s[i + 1]));
        }
        line_end_before(t, rest);
    }
}

/// A line without line ends, followed by one, is the first line.
proof fn first_line_is(s: Seq<char>, rest: Seq<char>)
    requires
        !s.contains('\n'),
        !s.contains('\r'),
    ensures
        lines_of(s + seq!['\n'] + rest) == seq![s] + lines_of(rest),
{
    let all = s + seq!['\n'] + rest;
    line_end_before(s, rest);
    assert(all.take(s.len() as int) =~= s);
    assert(all.skip(s.len() as int + 1) =~= rest);
    if s.len() > 0 {
        assert(s.contains(s.last()));
    }
    assert(without_return(s) == s);
}

proof fn not_blank(s: Seq<char>)
    requires
        s.len() > 0,
        !is_white(s[0]),
    ensures
        trimmed(s).len() > 0,
    decreases s.len(),
{
    assert(trim_start(s) == s);
    trim_end_keeps_first(s);
}

proof fn trim_end_keeps_first(s: Seq<char>)
    requires
        s.len() > 0,
        !is_white(s[0]),
    ensures
        trim_end(s).len() > 0,
    decreases s.len(),
{
    if is_white(s.last()) {
        trim_end_keeps_first(s.drop_last());
    }
}

/// What the inbox holds of a line that was appended is shown before what follows it.
pub proof fn appended_line_is_shown(line: Seq<char>, rest: Seq<char>)
    requires
        !line.contains('\n'),
        !line.contains('\r'),
        line.len() > 0,
        !is_white(line[0]),
    ensures
        inbox_of(line + seq!['\n'] + rest) == line_block(line) + "\n"@ + inbox_of(rest),
{
    first_line_is(line, rest);
    not_blank(line);
    let all = seq![line] + lines_of(rest);
    assert(all.drop_first() =~= lines_of(rest));
}

proof fn note_tree_is(n: NoteView)
    ensures
        note_tree(n).plain(127),
        note_tree(n) is Object,
        note_tree(n).wf(),
{
    empty_object_is(127);
    let t0 = empty_object();
    let t1 = t0.with("content"@, JsonTree::Text(n.content));
    with_sets(t0, "content"@, JsonTree::Text(n.content));
    with_is_plain(t0, "content"@, JsonTree::Text(n.content), 127);
    let t2 = t1.with("sender"@, JsonTree::Text(n.sender));
    with_sets(t1, "sender"@, JsonTree::Text(n.sender));
    with_is_plain(t1, "sender"@, JsonTree::Text(n.sender), 127);
    let t3 = t2.with("msg_id"@, JsonTree::Text(n.msg_id));
    with_sets(t2, "msg_id"@, JsonTree::Text(n.msg_id));
    with_is_plain(t2, "msg_id"@, JsonTree::Text(n.msg_id), 127);
    let t4 = with_opt(t3, "task_id"@, n.task_id);
    if let Some(s) = n.task_id {
        with_sets(t3, "task_id"@, JsonTree::Text(s));
        with_is_plain(t3, "task_id"@, JsonTree::Text(s), 127);
    }
    let t5 = with_opt(t4, "status"@, status_word(n.status));
    if let Some(s) = status_word(n.status) {
        with_sets(t4, "status"@, JsonTree::Text(s));
        with_is_plain(t4, "status"@, JsonTree::Text(s), 127);
    }
    if let Some(s) = n.in_reply_to {
        with_sets(t5, "in_reply_to"@, JsonTree::Text(s));
        with_is_plain(t5, "in_reply_to"@, JsonTree::Text(s), 127);
    }
}

fn set_attributes(j: Json, n: &Note) -> (r: Json)
    requires
        j.tree().wf(),
    ensures
        r.tree() == with_attributes(j.tree(), n@),
        r.tree().wf(),
{
    let j = j.with("sender", Json::Text(n.sender.clone())).with(
        "msg_id",
        Json::Text(n.msg_id.clone()),
    );
    let j = match &n.task_id {
        Some(s) => j.with("task_id", Json::Text(s.clone())),
        None => j,
    };
    let j = match n.status {
        Some(s) => j.with("status", Json::text(s.as_str())),
        None => j,
    };
    match &n.in_reply_to {
        Some(s) => j.with("in_reply_to", Json::Text(s.clone())),
        None => j,
    }
}

impl Note {
    /// The line that is appended to the inbox for the note. Whatever follows it, the note's block
    /// is shown first.
    pub fn to_line(&self) -> (r: String)
        ensures
            r@ == rendered_json(note_tree(self@)) + seq!['\n'],
            forall|rest: Seq<char>| #[trigger]
                inbox_of(r@ + rest) == block(note_tree(self@)) + "\n"@ + inbox_of(rest),
    {
        let j = set_attributes(
            Json::object().with("content", Json::Text(self.content.clone())),
            self,
        );
        proof {
            note_tree_is(self@);
        }
        let mut out = j.to_text();
        let ghost line = out@;
        push_char(&mut out, '\n');
        proof {
            assert(out@ =~= line + seq!['\n']);
            assert forall|rest: Seq<char>| #[trigger]
                inbox_of(out@ + rest) == block(note_tree(self@)) + "\n"@ + inbox_of(rest) by {
                appended_line_is_shown(line, rest);
                assert(out@ + rest =~= line + seq!['\n'] + rest);
            }
        }
        out
    }

    /// What is pushed over a channel for the note.
    pub fn to_push(&self) -> (r: Json)
        ensures
            r.tree() == push_tree(self@),
            r.tree().wf(),
    {
        Json::object().with("content", Json::Text(self.content.clone())).with(
            "meta",
            set_attributes(Json::object(), self),
        )
    }

    /// A copy of the note.
    pub fn copy(&self) -> (r: Note)
        ensures
            r@ == self@,
    {
        Note {
            content: self.content.clone(),
            sender: self.sender.clone(),
            msg_id: self.msg_id.clone(),
            task_id: opt_copy(&self.task_id),
            status: self.status,
            in_reply_to: opt_copy(&self.in_reply_to),
        }
    }
}

proof fn lacks_both(a: Seq<char>, b: Seq<char>, c: char)
    requires
        !a.contains(c),
        !b.contains(c),
    ensures
        !(a + b).contains(c),
{
    assert forall|i: int| 0 <= i < (a + b).len() implies (a + b)[i] != c by {
        if i < a.len() {
            assert(a.contains(a[i]));
        } else {
            assert(b.contains(b[i - a.len()]));
        }
    }
}

/// No escaped text holds a character that could begin or end a block or an attribute.
pub proof fn escaped_has_no_markup(s: Seq<char>)
    ensures
        !escaped(s).contains('<'),
        !escaped(s).contains('>'),
        !escaped(s).contains('"'),
    decreases s.len(),
{
    if s.len() > 0 {
        escaped_has_no_markup(s.drop_last());
        let c = s.last();
        let e = escaped_char(c);
        reveal_strlit("&amp;");
        reveal_strlit("&lt;");
        reveal_strlit("&gt;");
        reveal_strlit("&quot;");
        assert("&amp;"@ =~= seq!['&', 'a', 'm', 'p', ';']);
        assert("&lt;"@ =~= seq!['&', 'l', 't', ';']);
        assert("&gt;"@ =~= seq!['&', 'g', 't', ';']);
        assert("&quot;"@ =~= seq!['&', 'q', 'u', 'o', 't', ';']);
        assert(!e.contains('<') && !e.contains('>') && !e.contains('"'));
        lacks_both(escaped(s.drop_last()), e, '<');
        lacks_both(escaped(s.drop_last()), e, '>');
        lacks_both(escaped(s.drop_last()), e, '"');
    }
}

proof fn attribute_opens_nothing(label: Seq<char>, value: Option<Seq<char>>)
    requires
        !label.contains('<'),
    ensures
        !attribute(label, value).contains('<'),
{
    if let Some(v) = value {
        reveal_strlit(" ");
        reveal_strlit("=\"");
        reveal_strlit("\"");
        assert(" "@ =~= seq![' ']);
        assert("=\""@ =~= seq!['=', '"']);
        assert("\""@ =~= seq!['"']);
        escaped_has_no_markup(v);
        lacks_both(" "@, label, '<');
        lacks_both(" "@ + label, "=\""@, '<');
        lacks_both(" "@ + label + "=\""@, escaped(v), '<');
        lacks_both(" "@ + label + "=\""@ + escaped(v), "\""@, '<');
    }
}

proof fn fixed_words_open_nothing()
    ensures
        !"[interlink peer message from "@.contains('<'),
        !"] act on this:\n"@.contains('<'),
        !"msg_id"@.contains('<'),
        !"task"@.contains('<'),
        !"status"@.contains('<'),
        !"in_reply_to"@.contains('<'),
        !">\n"@.contains('<'),
        !"\""@.contains('<'),
        "<interlink sender=\""@.len() == 19,
        "<interlink sender=\""@[0] == '<',
        !"<interlink sender=\""@.drop_first().contains('<'),
        "\n</interlink>"@.len() == 13,
        "\n</interlink>"@[0] == '\n',
        "\n</interlink>"@[1] == '<',
        !"\n</interlink>"@.skip(2).contains('<'),
{
    reveal_strlit("[interlink peer message from ");
    reveal_strlit("] act on this:\n");
    reveal_strlit("msg_id");
    reveal_strlit("task");
    reveal_strlit("status");
    reveal_strlit("in_reply_to");
    reveal_strlit(">\n");
    reveal_strlit("\"");
    reveal_strlit("<interlink sender=\"");
    reveal_strlit("\n</interlink>");
    assert("[interlink peer message from "@ =~= seq![
        '[', 'i', 'n', 't', 'e', 'r', 'l', 'i', 'n', 'k', ' ', 'p', 'e', 'e', 'r', ' ', 'm', 'e',
        's', 's', 'a', 'g', 'e', ' ', 'f', 'r', 'o', 'm', ' ',
    ]);
    assert("] act on this:\n"@ =~= seq![
        ']', ' ', 'a', 'c', 't', ' ', 'o', 'n', ' ', 't', 'h', 'i', 's', ':', '\n',
    ]);
    assert("msg_id"@ =~= seq!['m', 's', 'g', '_', 'i', 'd']);
    assert("task"@ =~= seq!['t', 'a', 's', 'k']);
    assert("status"@ =~= seq!['s', 't', 'a', 't', 'u', 's']);
    assert("in_reply_to"@ =~= seq!['i', 'n', '_', 'r', 'e', 'p', 'l', 'y', '_', 't', 'o']);
    assert(">\n"@ =~= seq!['>', '\n']);
    assert("\""@ =~= seq!['"']);
    assert("<interlink sender=\""@.drop_first() =~= seq![
        'i', 'n', 't', 'e', 'r', 'l', 'i', 'n', 'k', ' ', 's', 'e', 'n', 'd', 'e', 'r', '=', '"',
    ]);
    assert("\n</interlink>"@.skip(2) =~= seq!['/', 'i', 'n', 't', 'e', 'r', 'l', 'i', 'n', 'k', '>']);
}

/// What stands in a block between its opening mark and its closing one.
spec fn block_middle(t: JsonTree) -> Seq<char> {
    shown_sender(t) + "\""@ + attribute("msg_id"@, t.get_text("msg_id"@)) + attribute(
        "task"@,
        t.get_text("task_id"@),
    ) + attribute("status"@, t.get_text("status"@)) + attribute(
        "in_reply_to"@,
        t.get_text("in_reply_to"@),
    ) + ">\n"@ + shown_content(t)
}

proof fn head_opens_nothing(t: JsonTree)
    ensures
        !block_head(t).contains('<'),
        !shown_sender(t).contains('<'),
{
    fixed_words_open_nothing();
    let raw = match t.get_text("sender"@) {
        Some(s) => s,
        None => "peer"@,
    };
    escaped_has_no_markup(raw);
    let sender = shown_sender(t);
    lacks_both("[interlink peer message from "@, sender, '<');
    lacks_both("[interlink peer message from "@ + sender, "] act on this:\n"@, '<');
}

proof fn middle_opens_nothing(t: JsonTree)
    ensures
        !block_middle(t).contains('<'),
{
    fixed_words_open_nothing();
    head_opens_nothing(t);
    if let Some(s) = t.get_text("content"@) {
        escaped_has_no_markup(s);
    }
    let a1 = attribute("msg_id"@, t.get_text("msg_id"@));
    let a2 = attribute("task"@, t.get_text("task_id"@));
    let a3 = attribute("status"@, t.get_text("status"@));
    let a4 = attribute("in_reply_to"@, t.get_text("in_reply_to"@));
    attribute_opens_nothing("msg_id"@, t.get_text("msg_id"@));
    attribute_opens_nothing("task"@, t.get_text("task_id"@));
    attribute_opens_nothing("status"@, t.get_text("status"@));
    attribute_opens_nothing("in_reply_to"@, t.get_text("in_reply_to"@));
    let s0 = shown_sender(t) + "\""@;
    let s1 = s0 + a1;
    let s2 = s1 + a2;
    let s3 = s2 + a3;
    let s4 = s3 + a4;
    let s5 = s4 + ">\n"@;
    lacks_both(shown_sender(t), "\""@, '<');
    lacks_both(s0, a1, '<');
    lacks_both(s1, a2, '<');
    lacks_both(s2, a3, '<');
    lacks_both(s3, a4, '<');
    lacks_both(s4, ">\n"@, '<');
    lacks_both(s5, shown_content(t), '<');
}

proof fn joins_regroup(a: Seq<char>, b: Seq<char>, c: Seq<char>)
    ensures
        a + b + c == a + (b + c),
{
    assert(a + b + c =~= a + (b + c));
}

proof fn parts_regroup(
    front: Seq<char>,
    m: Seq<char>,
    q: Seq<char>,
    a1: Seq<char>,
    a2: Seq<char>,
    a3: Seq<char>,
    a4: Seq<char>,
    e: Seq<char>,
    c: Seq<char>,
)
    ensures
        front + m + q + a1 + a2 + a3 + a4 + e + c == front + (m + q + a1 + a2 + a3 + a4 + e + c),
{
    joins_regroup(front, m, q);
    joins_regroup(front, m + q, a1);
    joins_regroup(front, m + q + a1, a2);
    joins_regroup(front, m + q + a1 + a2, a3);
    joins_regroup(front, m + q + a1 + a2 + a3, a4);
    joins_regroup(front, m + q + a1 + a2 + a3 + a4, e);
    joins_regroup(front, m + q + a1 + a2 + a3 + a4 + e, c);
}

proof fn block_is_its_parts(t: JsonTree)
    ensures
        block(t) == block_head(t) + "<interlink sender=\""@ + block_middle(t)
            + "\n</interlink>"@,
{
    parts_regroup(
        block_head(t) + "<interlink sender=\""@,
        shown_sender(t),
        "\""@,
        attribute("msg_id"@, t.get_text("msg_id"@)),
        attribute("task"@, t.get_text("task_id"@)),
        attribute("status"@, t.get_text("status"@)),
        attribute("in_reply_to"@, t.get_text("in_reply_to"@)),
        ">\n"@,
        shown_content(t),
    );
}

proof fn marks_stand_at_the_ends(
    head: Seq<char>,
    open: Seq<char>,
    mid: Seq<char>,
    close: Seq<char>,
    i: int,
)
    requires
        !head.contains('<'),
        !open.drop_first().contains('<'),
        !mid.contains('<'),
        open.len() > 0,
        close.len() > 1,
        close[0] != '<',
        !close.skip(2).contains('<'),
        0 <= i < (head + open + mid + close).len(),
        (head + open + mid + close)[i] == '<',
    ensures
        i == head.len() || i == (head + open + mid + close).len() - close.len() + 1,
{
    if i < head.len() {
        assert(head.contains(head[i]));
    } else if i < head.len() + open.len() {
        let k = i - head.len();
        if k > 0 {
            assert(open.drop_first()[k - 1] == open[k]);
            assert(open.drop_first().contains(open[k]));
        }
    } else if i < head.len() + open.len() + mid.len() {
        let k = i - head.len() - open.len();
        assert(mid.contains(mid[k]));
    } else {
        let k = i - head.len() - open.len() - mid.len();
        if k >= 2 {
            assert(close.skip(2)[k - 2] == close[k]);
            assert(close.skip(2).contains(close[k]));
        }
    }
}

/// A block has one opening and one closing mark, at the places that the block itself gives them:
/// nothing that a peer wrote can open or close another.
pub proof fn block_is_not_forged(t: JsonTree, i: int)
    requires
        0 <= i < block(t).len(),
        block(t)[i] == '<',
    ensures
        i == block_head(t).len() || i == block(t).len() - 12,
{
    fixed_words_open_nothing();
    head_opens_nothing(t);
    middle_opens_nothing(t);
    block_is_its_parts(t);
    marks_stand_at_the_ends(
        block_head(t),
        "<interlink sender=\""@,
        block_middle(t),
        "\n</interlink>"@,
        i,
    );
}

/// The text that `String::from_utf8_lossy` gives for the bytes.
pub uninterp spec fn lossy_chars(bytes: Seq<u8>) -> Seq<char>;

/// `String::from_utf8_lossy`: the text that the bytes encode, where they encode one. What stands
/// for bytes that do not is a function of the bytes.
#[verifier::external_body]
fn lossy_text(bytes: &[u8]) -> (r: String)
    ensures
        r@ == lossy_chars(bytes@),
        valid_utf8(bytes@) ==> encode_utf8(r@) == bytes@,
{
    String::from_utf8_lossy(bytes).into_owned()
}

/// Where an inbox of `len` bytes of which `cursor` were shown is to be shown from. One that has
/// become shorter was begun anew, and is shown from its beginning.
pub open spec fn shown_from(len: int, cursor: u64) -> int {
    if len < cursor {
        0
    } else {
        cursor as int
    }
}

/// The bytes of the inbox that have not been shown.
pub open spec fn unseen(data: Seq<u8>, cursor: u64) -> Seq<u8> {
    data.skip(shown_from(data.len() as int, cursor))
}

/// What is shown of an inbox.
#[derive(Debug, Clone, PartialEq, Eq)]
pub struct Shown {
    pub text: String,
    /// How much of the inbox is shown with it.
    pub cursor: u64,
}

/// What is shown of the inbox from `cursor` on, and how much of it is shown then: all that was
/// read of it.
pub fn show_unseen(data: &Vec<u8>, cursor: u64) -> (r: Shown)
    ensures
        r.text@ == inbox_of(lossy_chars(unseen(data@, cursor))),
        forall|text: Seq<char>|
            encode_utf8(text) == unseen(data@, cursor) ==> r.text@ == #[trigger] inbox_of(text),
        r.cursor == data@.len(),
{
    let start: usize = if (data.len() as u64) < cursor {
        0
    } else {
        cursor as usize
    };
    let mut fresh: Vec<u8> = Vec::new();
    let mut i: usize = start;
    while i < data.len()
        invariant
            start <= i <= data@.len(),
            fresh@ == data@.subrange(start as int, i as int),
        decreases data@.len() - i,
    {
        fresh.push(data[i]);
        assert(data@.subrange(start as int, i as int).push(data@[i as int]) =~= data@.subrange(
            start as int,
            i + 1,
        ));
        i += 1;
    }
    assert(fresh@ =~= unseen(data@, cursor));
    let text = lossy_text(fresh.as_slice());
    proof {
        assert forall|other: Seq<char>|
            encode_utf8(other) == unseen(data@, cursor) implies inbox_of(text@)
            == #[trigger] inbox_of(other) by {
            encode_utf8_valid_utf8(other);
            utf8_is_injective(text@, other);
        }
    }
    Shown { text: render_inbox(text.as_str()), cursor: data.len() as u64 }
}

/// What is appended to an inbox is shown once: after what there was has been shown, it alone is
/// shown; where that was not shown yet, it is shown behind it; and then nothing is left to show.
pub proof fn appended_is_shown_once(data: Seq<u8>, more: Seq<u8>, cursor: u64, shown: u64, end: u64)
    requires
        cursor <= data.len(),
        shown == data.len(),
        end == data.len() + more.len(),
    ensures
        unseen(data + more, shown) == more,
        unseen(data + more, cursor) == unseen(data, cursor) + more,
        unseen(data + more, end) == Seq::<u8>::empty(),
{
    assert(unseen(data + more, shown) =~= more);
    assert(unseen(data + more, cursor) =~= unseen(data, cursor) + more);
    assert(unseen(data + more, end) =~= Seq::<u8>::empty());
}

/// What a listener does next.
#[derive(Debug, Clone, Copy, PartialEq, Eq, Structural)]
pub enum Listening {
    /// There is more in the inbox, which is to be shown.
    Show,
    /// Nothing is new: look again a little later.
    Wait,
    /// Nothing is new, and the time is up.
    Stop,
}

/// What a listener does about an inbox, and how much of it was shown.
#[derive(Debug, Clone, Copy, PartialEq, Eq, Structural)]
pub struct Listen {
    /// How much was shown of the inbox as it is now.
    pub from: u64,
    pub next: Listening,
}

/// What a listener does about an inbox of `len` bytes of which `cursor` were shown, with
/// `remaining_ms` left to listen. An inbox that has become shorter was begun anew, and is shown
/// from its beginning.
pub fn listen_step(len: u64, cursor: u64, remaining_ms: u64) -> (r: Listen)
    ensures
        r.from == shown_from(len as int, cursor),
        r.next == if len > r.from {
            Listening::Show
        } else if remaining_ms > 0 {
            Listening::Wait
        } else {
            Listening::Stop
        },
{
    let from: u64 = if len < cursor {
        0
    } else {
        cursor
    };
    let next = if len > from {
        Listening::Show
    } else if remaining_ms > 0 {
        Listening::Wait
    } else {
        Listening::Stop
    };
    Listen { from, next }
}

/// How much of the inbox the cursor file says was shown: nothing, where it says no number.
pub open spec fn cursor_shown(text: Seq<char>) -> u64 {
    match number_of(trimmed(text)) {
        Some(n) => n,
        None => 0,
    }
}

/// How much of the inbox the cursor file says was shown.
pub fn cursor_of(text: &str) -> (r: u64)
    ensures
        r == cursor_shown(text@),
{
    match parse_number(trim(text).as_str()) {
        Some(n) => n,
        None => 0,
    }
}

/// What the cursor file holds. Reading it gives the number back.
pub fn cursor_text(shown_len: u64) -> (r: String)
    ensures
        r@ == decimal_text(shown_len as nat),
        cursor_shown(r@) == shown_len,
{
    let mut out = String::new();
    push_decimal(&mut out, shown_len);
    proof {
        assert(out@ =~= decimal_text(shown_len as nat));
        decimal_reads_back(shown_len);
        no_white_trims_to_itself(out@);
    }
    out
}

/// The session that a hook's input names, or `main`.
pub open spec fn session_hooked(input: Seq<char>) -> Seq<char> {
    match parsed_json(encode_utf8(input)) {
        Some(t) => match t.get_text("session_id"@) {
            Some(s) => if s.len() > 0 {
                s
            } else {
                "main"@
            },
            None => "main"@,
        },
        None => "main"@,
    }
}

/// The session that a hook's input names, or `main`.
pub fn hook_session(input: &str) -> (r: String)
    ensures
        r@ == session_hooked(input@),
{
    match Json::parse(input) {
        Some(j) => match j.get_str("session_id") {
            Some(s) => if s.is_empty() {
                "main".to_string()
            } else {
                s.to_string()
            },
            None => "main".to_string(),
        },
        None => "main".to_string(),
    }
}

/// Whether the operator chose delivery over channels.
pub open spec fn channels_chosen(value: Option<Seq<char>>) -> bool {
    match value {
        Some(s) => s == "1"@ || same_ignoring_case(s, "true"@),
        None => false,
    }
}

/// Whether the operator chose delivery over channels, by the value of the environment variable.
pub fn channel_mode(value: Option<&str>) -> (r: bool)
    ensures
        r == channels_chosen(crate::identity::opt_str(value)),
{
    match value {
        Some(s) => same_text(s, "1") || eq_ignore_ascii_case(s, "true"),
        None => false,
    }
}

/// What the marker of a running task holds.
pub open spec fn marker_tree(task_id: Seq<char>, peer: Seq<char>, since: u64) -> JsonTree {
    empty_object().with("task_id"@, JsonTree::Text(task_id)).with("peer"@, JsonTree::Text(peer)).with(
        "since"@,
        JsonTree::Whole(since),
    )
}

/// What the marker of a running task holds: the task, the peer that it is done for, and since
/// when.
pub fn marker_text(task_id: &str, peer: &str, since: u64) -> (r: String)
    ensures
        r@ == rendered_json(marker_tree(task_id@, peer@, since)),
        marker_names(r@, task_id@),
{
    let j = Json::object().with("task_id", Json::text(task_id)).with("peer", Json::text(peer)).with(
        "since",
        Json::Whole(since),
    );
    proof {
        reveal_strlit("task_id");
        reveal_strlit("peer");
        reveal_strlit("since");
        assert("task_id"@.len() == 7 && "peer"@.len() == 4 && "since"@.len() == 5);
        empty_object_is(127);
        let t0 = empty_object();
        let t1 = t0.with("task_id"@, JsonTree::Text(task_id@));
        with_sets(t0, "task_id"@, JsonTree::Text(task_id@));
        with_is_plain(t0, "task_id"@, JsonTree::Text(task_id@), 127);
        let t2 = t1.with("peer"@, JsonTree::Text(peer@));
        with_sets(t1, "peer"@, JsonTree::Text(peer@));
        with_is_plain(t1, "peer"@, JsonTree::Text(peer@), 127);
        let t3 = t2.with("since"@, JsonTree::Whole(since));
        with_sets(t2, "since"@, JsonTree::Whole(since));
        with_is_plain(t2, "since"@, JsonTree::Whole(since), 127);
        assert(t3.get("task_id"@) == Some(JsonTree::Text(task_id@)));
    }
    j.to_text()
}

/// The marker is that of the task.
pub open spec fn marker_names(marker: Seq<char>, task_id: Seq<char>) -> bool {
    match parsed_json(encode_utf8(marker)) {
        Some(t) => t.get_text("task_id"@) == Some(task_id),
        None => false,
    }
}

/// Whether a marker is that of the task, and is to be cleared with it.
pub fn marker_is_for(marker: &str, task_id: &str) -> (r: bool)
    ensures
        r == marker_names(marker@, task_id@),
{
    match Json::parse(marker) {
        Some(j) => match j.get_str("task_id") {
            Some(s) => same_text(s, task_id),
            None => false,
        },
        None => false,
    }
}

/// A text is escaped character by character: the four that mean something in a block are written
/// as their names, and every other stands for itself.
pub proof fn escaping_is_by_character(a: Seq<char>, b: Seq<char>, c: char)
    ensures
        escaped(Seq::empty()).len() == 0,
        escaped(a + b) == escaped(a) + escaped(b),
        escaped(seq!['&']) == "&amp;"@,
        escaped(seq!['<']) == "&lt;"@,
        escaped(seq!['>']) == "&gt;"@,
        escaped(seq!['"']) == "&quot;"@,
        c != '&' && c != '<' && c != '>' && c != '"' ==> escaped(seq![c]) == seq![c],
    decreases b.len(),
{
    one_escaped('&');
    one_escaped('<');
    one_escaped('>');
    one_escaped('"');
    one_escaped(c);
    if b.len() == 0 {
        assert(a + b =~= a);
        assert(escaped(a) + escaped(b) =~= escaped(a));
    } else {
        escaping_is_by_character(a, b.drop_last(), c);
        assert((a + b).drop_last() =~= a + b.drop_last());
        assert(escaped(a + b) =~= escaped(a) + escaped(b));
    }
}

proof fn one_escaped(c: char)
    ensures
        escaped(seq![c]) == escaped_char(c),
{
    assert(seq![c].drop_last() =~= Seq::<char>::empty());
    assert(escaped(seq![c].drop_last()) =~= Seq::<char>::empty());
    assert(escaped(seq![c]) =~= escaped_char(c));
}

/// The inbox keeps a note whole: each of its parts under its name, and absent ones nowhere. What
/// is pushed over a channel keeps the same.
pub proof fn note_is_kept_whole(n: NoteView)
    ensures
        note_tree(n).get_text("content"@) == Some(n.content),
        note_tree(n).get_text("sender"@) == Some(n.sender),
        note_tree(n).get_text("msg_id"@) == Some(n.msg_id),
        note_tree(n).get_text("task_id"@) == n.task_id,
        note_tree(n).get_text("status"@) == match n.status {
            Some(s) => Some(s.tag()),
            None => None,
        },
        note_tree(n).get_text("in_reply_to"@) == n.in_reply_to,
        push_tree(n).get_text("content"@) == Some(n.content),
        push_tree(n).get("meta"@) is Some,
        ({
            let meta = push_tree(n).get("meta"@)->0;
            &&& meta.get_text("sender"@) == Some(n.sender)
            &&& meta.get_text("msg_id"@) == Some(n.msg_id)
            &&& meta.get_text("task_id"@) == n.task_id
            &&& meta.get_text("status"@) == match n.status {
                Some(s) => Some(s.tag()),
                None => None,
            }
            &&& meta.get_text("in_reply_to"@) == n.in_reply_to
        }),
{
    reveal_strlit("content");
    reveal_strlit("meta");
    assert("content"@.len() == 7 && "meta"@.len() == 4);
    empty_object_is(127);
    let content = JsonTree::Text(n.content);
    with_sets(empty_object(), "content"@, content);
    let t = empty_object().with("content"@, content);
    attribute_names_differ();
    attributes_are_set(t, n);
    attributes_are_set(empty_object(), n);
    with_sets(t, "meta"@, with_attributes(empty_object(), n));
}

proof fn attribute_names_differ()
    ensures
        "content"@ != "sender"@,
        "content"@ != "msg_id"@,
        "content"@ != "task_id"@,
        "content"@ != "status"@,
        "content"@ != "in_reply_to"@,
        "sender"@ != "msg_id"@,
        "sender"@ != "status"@,
        "msg_id"@ != "status"@,
        "sender"@.len() == 6,
        "msg_id"@.len() == 6,
        "status"@.len() == 6,
        "task_id"@.len() == 7,
        "in_reply_to"@.len() == 11,
{
    reveal_strlit("content");
    reveal_strlit("sender");
    reveal_strlit("msg_id");
    reveal_strlit("task_id");
    reveal_strlit("status");
    reveal_strlit("in_reply_to");
    assert("content"@[0] == 'c' && "task_id"@[0] == 't');
    assert("sender"@[0] == 's' && "sender"@[1] == 'e' && "status"@[1] == 't' && "msg_id"@[0] == 'm');
    assert("status"@[0] == 's');
    assert("content"@.len() == 7);
}

proof fn attributes_are_set(t: JsonTree, n: NoteView)
    requires
        t.wf(),
        t is Object,
        t.get("task_id"@) is None,
        t.get("status"@) is None,
        t.get("in_reply_to"@) is None,
    ensures
        ({
            let r = with_attributes(t, n);
            &&& r.wf()
            &&& r is Object
            &&& r.get_text("sender"@) == Some(n.sender)
            &&& r.get_text("msg_id"@) == Some(n.msg_id)
            &&& r.get_text("task_id"@) == n.task_id
            &&& r.get_text("status"@) == status_word(n.status)
            &&& r.get_text("in_reply_to"@) == n.in_reply_to
            &&& r.get_text("content"@) == t.get_text("content"@)
        }),
{
    attribute_names_differ();
    let t1 = t.with("sender"@, JsonTree::Text(n.sender));
    with_sets(t, "sender"@, JsonTree::Text(n.sender));
    let t2 = t1.with("msg_id"@, JsonTree::Text(n.msg_id));
    with_sets(t1, "msg_id"@, JsonTree::Text(n.msg_id));
    assert(t2.get("task_id"@) is None && t2.get("status"@) is None && t2.get("in_reply_to"@)
        is None);
    let t3 = with_opt(t2, "task_id"@, n.task_id);
    opt_sets(t2, "task_id"@, n.task_id);
    assert(t3.get("status"@) is None && t3.get("in_reply_to"@) is None);
    let t4 = with_opt(t3, "status"@, status_word(n.status));
    opt_sets(t3, "status"@, status_word(n.status));
    assert(t4.get("in_reply_to"@) is None);
    let t5 = with_opt(t4, "in_reply_to"@, n.in_reply_to);
    opt_sets(t4, "in_reply_to"@, n.in_reply_to);
    assert(t5.get("sender"@) == Some(JsonTree::Text(n.sender)));
    assert(t5.get("msg_id"@) == Some(JsonTree::Text(n.msg_id)));
    assert(t5.get("content"@) == t.get("content"@));
    assert(t5.get("task_id"@) == t3.get("task_id"@));
    assert(t5.get("status"@) == t4.get("status"@));
}

/// The block of a note says who it is from, its id, its task, status and reference as far as it
/// has them, and ends with the whole content between the marks, all of it escaped.
pub proof fn block_says_the_whole_note(n: NoteView)
    ensures
        block(note_tree(n)) == "[interlink peer message from "@ + escaped(n.sender)
            + "] act on this:\n"@ + "<interlink sender=\""@ + escaped(n.sender) + "\""@ + (
        " msg_id=\""@ + escaped(n.msg_id) + "\""@) + (match n.task_id {
            Some(t) => " task=\""@ + escaped(t) + "\""@,
            None => Seq::empty(),
        }) + (match n.status {
            Some(s) => " status=\""@ + escaped(s.tag()) + "\""@,
            None => Seq::empty(),
        }) + (match n.in_reply_to {
            Some(t) => " in_reply_to=\""@ + escaped(t) + "\""@,
            None => Seq::empty(),
        }) + ">\n"@ + escaped(n.content) + "\n</interlink>"@,
{
    note_is_kept_whole(n);
    reveal_strlit(" ");
    reveal_strlit("=\"");
    reveal_strlit("msg_id");
    reveal_strlit(" msg_id=\"");
    reveal_strlit("task");
    reveal_strlit(" task=\"");
    reveal_strlit("status");
    reveal_strlit(" status=\"");
    reveal_strlit("in_reply_to");
    reveal_strlit(" in_reply_to=\"");
    assert(" "@ + "msg_id"@ + "=\""@ =~= " msg_id=\""@);
    assert(" "@ + "task"@ + "=\""@ =~= " task=\""@);
    assert(" "@ + "status"@ + "=\""@ =~= " status=\""@);
    assert(" "@ + "in_reply_to"@ + "=\""@ =~= " in_reply_to=\""@);
}

/// Lines are shown one by one, in their order: a blank one not at all, any other as its block,
/// which is followed by a line end; a line that is no JSON is shown as it is.
pub proof fn lines_are_shown_one_by_one(a: Seq<Seq<char>>, b: Seq<Seq<char>>, line: Seq<char>)
    ensures
        shown(Seq::empty()).len() == 0,
        shown(a + b) == shown(a) + shown(b),
        shown(seq![line]) == if trimmed(line).len() == 0 {
            Seq::empty()
        } else {
            line_block(line) + "\n"@
        },
        parsed_json(encode_utf8(line)) is None ==> line_block(line) == line,
        parsed_json(encode_utf8(line)) matches Some(t) ==> line_block(line) == block(t),
    decreases a.len(),
{
    let one = seq![line];
    assert(one.drop_first() =~= Seq::<Seq<char>>::empty());
    assert(shown(one.drop_first()) =~= Seq::<char>::empty());
    assert(shown(one) =~= if trimmed(line).len() == 0 {
        Seq::empty()
    } else {
        line_block(line) + "\n"@
    });
    if a.len() == 0 {
        assert(a + b =~= b);
        assert(shown(a) + shown(b) =~= shown(b));
    } else {
        lines_are_shown_one_by_one(a.drop_first(), b, line);
        assert((a + b).drop_first() =~= a.drop_first() + b);
        assert(shown(a + b) =~= shown(a) + shown(b));
    }
}

/// An inbox that has become shorter than what was shown of it was begun anew, and is shown whole;
/// any other is shown from where it was left.
pub proof fn shortened_inbox_is_shown_whole(data: Seq<u8>, cursor: u64)
    ensures
        data.len() < cursor ==> unseen(data, cursor) == data,
        data.len() >= cursor ==> unseen(data, cursor) == data.skip(cursor as int),
{
    assert(data.skip(0) =~= data);
}

/// The cursor file says a number in decimal digits, around which white space may stand; where it
/// says none, nothing was shown.
pub proof fn cursor_is_a_number_or_nothing(text: Seq<char>, n: u64)
    ensures
        trimmed(text) == decimal_text(n as nat) ==> cursor_shown(text) == n,
        number_of(trimmed(text)) is None ==> cursor_shown(text) == 0,
{
    decimal_reads_back(n);
}

/// A hook is for the session that its input names, and for `main` where it names none.
pub proof fn hook_is_for_the_named_session(input: Seq<char>, t: JsonTree, id: Seq<char>)
    ensures
        parsed_json(encode_utf8(input)) is None ==> session_hooked(input) == "main"@,
        parsed_json(encode_utf8(input)) == Some(t) ==> {
            &&& t.get_text("session_id"@) == Some(id) && id.len() > 0 ==> session_hooked(input) == id
            &&& t.get_text("session_id"@) is None ==> session_hooked(input) == "main"@
            &&& t.get_text("session_id"@) == Some(id) && id.len() == 0 ==> session_hooked(input)
                == "main"@
        },
{
}

/// Channels are chosen by `1` and by `true` in any case of the letters, and by nothing else.
pub proof fn channels_are_chosen_by_word(value: Seq<char>)
    ensures
        !channels_chosen(None),
        channels_chosen(Some("1"@)),
        channels_chosen(Some("true"@)),
        channels_chosen(Some("TRUE"@)),
        channels_chosen(Some(value)) ==> value == "1"@ || value.len() == 4,
        !channels_chosen(Some(Seq::empty())),
{
    reveal_strlit("1");
    reveal_strlit("true");
    reveal_strlit("TRUE");
    assert("true"@.len() == 4 && "TRUE"@.len() == 4 && "1"@.len() == 1);
    crate::text::only_case_is_ignored("TRUE"@, "true"@);
    crate::text::only_case_is_ignored("true"@, "true"@);
    assert(same_ignoring_case("TRUE"@, "true"@));
}

/// A marker is a task's if and only if it is an object that names that task.
pub proof fn marker_is_of_one_task(marker: Seq<char>, task_id: Seq<char>, other: Seq<char>)
    ensures
        marker_names(marker, task_id) ==> parsed_json(encode_utf8(marker)) is Some && parsed_json(
            encode_utf8(marker),
        )->0.get_text("task_id"@) == Some(task_id),
        marker_names(marker, task_id) && marker_names(marker, other) ==> task_id == other,
{
}

/// The marker of a running task names the task, the peer that it is done for, and since when.
pub proof fn marker_says_task_and_peer(task_id: Seq<char>, peer: Seq<char>, since: u64)
    ensures
        marker_tree(task_id, peer, since).get_text("task_id"@) == Some(task_id),
        marker_tree(task_id, peer, since).get_text("peer"@) == Some(peer),
        marker_tree(task_id, peer, since).get("since"@) == Some(JsonTree::Whole(since)),
{
    reveal_strlit("task_id");
    reveal_strlit("peer");
    reveal_strlit("since");
    assert("task_id"@.len() == 7 && "peer"@.len() == 4 && "since"@.len() == 5);
    empty_object_is(1);
    let t1 = empty_object().with("task_id"@, JsonTree::Text(task_id));
    with_sets(empty_object(), "task_id"@, JsonTree::Text(task_id));
    let t2 = t1.with("peer"@, JsonTree::Text(peer));
    with_sets(t1, "peer"@, JsonTree::Text(peer));
    with_sets(t2, "since"@, JsonTree::Whole(since));
}

} // verus!
