//! The line-based text protocol: `SET key value`, `GET key`, `DEL key`,
//! `LIST`, `EXIT` and `HELP`, one command per line, on a table of text values.

use vstd::prelude::*;

use crate::commands::{join, join_with, same_text};
use crate::store::Store;

verus! {

/// Whether `c` has the Unicode `White_Space` property: the controls U+0009
/// to U+000D, the space, U+0085, the no-break space, U+1680, the spaces
/// U+2000 to U+200A, the line and paragraph separators, U+202F, U+205F and
/// the ideographic space.
pub open spec fn white_space(c: char) -> bool {
    ||| '\u{9}' <= c <= '\u{d}'
    ||| c == ' '
    ||| c == '\u{85}'
    ||| c == '\u{a0}'
    ||| c == '\u{1680}'
    ||| '\u{2000}' <= c <= '\u{200a}'
    ||| c == '\u{2028}'
    ||| c == '\u{2029}'
    ||| c == '\u{202f}'
    ||| c == '\u{205f}'
    ||| c == '\u{3000}'
}

/// Whether `c` has the Unicode `White_Space` property.
pub fn is_white_space(c: char) -> (r: bool)
    ensures
        r == white_space(c),
{
    ('\u{9}' <= c && c <= '\u{d}') || c == ' ' || c == '\u{85}' || c == '\u{a0}' || c == '\u{1680}'
        || ('\u{2000}' <= c && c <= '\u{200a}') || c == '\u{2028}' || c == '\u{2029}' || c
        == '\u{202f}' || c == '\u{205f}' || c == '\u{3000}'
}

/// The word being gathered, as a list of zero or one words.
pub open spec fn flush(cur: Seq<char>) -> Seq<Seq<char>> {
    if cur.len() == 0 {
        seq![]
    } else {
        seq![cur]
    }
}

/// The words of `rest`, where the word `cur` was already begun before it.
pub open spec fn words_from(rest: Seq<char>, cur: Seq<char>) -> Seq<Seq<char>>
    decreases rest.len(),
{
    if rest.len() == 0 {
        flush(cur)
    } else if white_space(rest[0]) {
        flush(cur) + words_from(rest.drop_first(), seq![])
    } else {
        words_from(rest.drop_first(), cur.push(rest[0]))
    }
}

/// The words of a line: its maximal runs of characters that are not white space.
pub open spec fn words(line: Seq<char>) -> Seq<Seq<char>> {
    words_from(line, seq![])
}

/// Splits a line into its words.
pub fn split_words(line: &str) -> (r: Vec<String>)
    ensures
        r@.map_values(|w: String| w@) == words(line@),
{
    let ghost s = line@;
    let n = line.unicode_len();
    let mut out: Vec<String> = Vec::new();
    let mut start: usize = 0;
    let mut i: usize = 0;
    assert(s.skip(0) =~= s);
    assert(s.subrange(0, 0) =~= seq![]);
    assert(out@.map_values(|w: String| w@) + words(s) =~= words(s));
    while i < n
        invariant
            s == line@,
            n == s.len(),
            start <= i <= n,
            words(s) == out@.map_values(|w: String| w@) + words_from(
                s.skip(i as int),
                s.subrange(start as int, i as int),
            ),
        decreases n - i,
    {
        let ghost cur = s.subrange(start as int, i as int);
        let ghost before = out@.map_values(|w: String| w@);
        let c = line.get_char(i);
        assert(s.skip(i as int)[0] == c);
        assert(s.skip(i as int).drop_first() =~= s.skip(i + 1));
        if is_white_space(c) {
            if start < i {
                let w = line.substring_char(start, i).to_owned();
                out.push(w);
                assert(out@.map_values(|w: String| w@) =~= before + flush(cur));
            } else {
                assert(cur =~= seq![]);
                assert(out@.map_values(|w: String| w@) =~= before + flush(cur));
            }
            assert(before + (flush(cur) + words_from(s.skip(i + 1), seq![])) =~= (before + flush(
                cur,
            )) + words_from(s.skip(i + 1), seq![]));
            i = i + 1;
            start = i;
            assert(s.subrange(start as int, i as int) =~= seq![]);
        } else {
            assert(cur.push(c) =~= s.subrange(start as int, i + 1));
            i = i + 1;
        }
    }
    let ghost before = out@.map_values(|w: String| w@);
    let ghost cur = s.subrange(start as int, n as int);
    if start < n {
        let w = line.substring_char(start, n).to_owned();
        out.push(w);
    }
    assert(out@.map_values(|w: String| w@) =~= before + flush(cur));
    out
}


/// A request of the text protocol.
pub enum TextRequest {
    Put(Seq<char>, Seq<char>),
    Get(Seq<char>),
    Del(Seq<char>),
    List,
    Exit,
    Help,
    Unknown,
}

/// The request that a line with `ws` as its words makes.
pub open spec fn request_of(ws: Seq<Seq<char>>) -> TextRequest {
    if ws.len() == 3 && ws[0] == "SET"@ {
        TextRequest::Put(ws[1], ws[2])
    } else if ws.len() == 2 && ws[0] == "GET"@ {
        TextRequest::Get(ws[1])
    } else if ws.len() == 2 && ws[0] == "DEL"@ {
        TextRequest::Del(ws[1])
    } else if ws.len() == 1 && ws[0] == "LIST"@ {
        TextRequest::List
    } else if ws.len() == 1 && ws[0] == "EXIT"@ {
        TextRequest::Exit
    } else if ws.len() == 1 && ws[0] == "HELP"@ {
        TextRequest::Help
    } else {
        TextRequest::Unknown
    }
}

/// The table of the text protocol, its values as text.
pub type TextTable = Map<Seq<char>, Seq<char>>;

/// The text values of a table of strings.
pub open spec fn text_table(m: Map<Seq<char>, String>) -> TextTable {
    m.map_values(|v: String| v@)
}

/// The answer to `HELP`.
pub open spec fn help_text() -> Seq<char> {
    "Commands:\nSET key value - Set the value of a key\nGET key - Get the value of a key\nDEL key - Delete the value of a key\nLIST - List all keys\nEXIT - Exit the database\nHELP - List all commands\n"@
}

/// The answer to `req` on table `db`, whose keys are listed in the order `order`.
pub open spec fn text_reply(req: TextRequest, db: TextTable, order: Seq<Seq<char>>) -> Seq<char> {
    match req {
        TextRequest::Put(_, _) => "OK\n"@,
        TextRequest::Get(k) => if db.contains_key(k) {
            "VALUE "@ + db[k] + "\n"@
        } else {
            "NOT FOUND\n"@
        },
        TextRequest::Del(k) => if db.contains_key(k) {
            "OK\n"@
        } else {
            "NOT FOUND\n"@
        },
        TextRequest::List => if order.len() == 0 {
            "EMPTY\n"@
        } else {
            "KEYS "@ + join(order, ", "@) + "\n"@
        },
        TextRequest::Exit => "EXITING\n"@,
        TextRequest::Help => help_text(),
        TextRequest::Unknown => "ERROR Unknown command\n"@,
    }
}

/// The table after `req`.
pub open spec fn text_effect(req: TextRequest, db: TextTable) -> TextTable {
    match req {
        TextRequest::Put(k, v) => db.insert(k, v),
        TextRequest::Del(k) => db.remove(k),
        _ => db,
    }
}

/// What the server sends back for one line, and whether it then closes the
/// connection.
pub struct LineReply {
    pub text: String,
    pub close: bool,
}

/// Handles one line of the text protocol on the table `db`.
pub fn handle_line(db: &mut Store<String>, line: &str) -> (r: LineReply)
    requires
        old(db).wf(),
    ensures
        final(db).wf(),
        r.text@ == text_reply(request_of(words(line@)), text_table(old(db)@), old(db).key_order()),
        r.close == (request_of(words(line@)) is Exit),
        text_table(final(db)@) == text_effect(request_of(words(line@)), text_table(old(db)@)),
{
    let ws = split_words(line);
    let ghost wv = ws@.map_values(|w: String| w@);
    assert(ws@.len() > 0 ==> wv[0] == ws@[0]@);
    assert(ws@.len() > 1 ==> wv[1] == ws@[1]@);
    assert(ws@.len() > 2 ==> wv[2] == ws@[2]@);
    let n = ws.len();
    if n == 3 && same_text(ws[0].as_str(), "SET") {
        let ghost before = text_table(db@);
        db.insert(ws[1].clone(), ws[2].clone());
        assert(text_table(db@) =~= before.insert(wv[1], wv[2]));
        LineReply { text: "OK\n".to_owned(), close: false }
    } else if n == 2 && same_text(ws[0].as_str(), "GET") {
        match db.get(&ws[1]) {
            Some(v) => {
                let mut t = "VALUE ".to_owned();
                t.append(v.as_str());
                t.append("\n");
                LineReply { text: t, close: false }
            },
            None => LineReply { text: "NOT FOUND\n".to_owned(), close: false },
        }
    } else if n == 2 && same_text(ws[0].as_str(), "DEL") {
        let ghost before = text_table(db@);
        let removed = db.remove(&ws[1]);
        assert(text_table(db@) =~= before.remove(wv[1]));
        match removed {
            Some(_) => LineReply { text: "OK\n".to_owned(), close: false },
            None => LineReply { text: "NOT FOUND\n".to_owned(), close: false },
        }
    } else if n == 1 && same_text(ws[0].as_str(), "LIST") {
        let keys = db.keys();
        if keys.len() == 0 {
            LineReply { text: "EMPTY\n".to_owned(), close: false }
        } else {
            let mut t = "KEYS ".to_owned();
            let joined = join_with(&keys, ", ");
            t.append(joined.as_str());
            t.append("\n");
            LineReply { text: t, close: false }
        }
    } else if n == 1 && same_text(ws[0].as_str(), "EXIT") {
        LineReply { text: "EXITING\n".to_owned(), close: true }
    } else if n == 1 && same_text(ws[0].as_str(), "HELP") {
        LineReply {
            text: "Commands:\nSET key value - Set the value of a key\nGET key - Get the value of a key\nDEL key - Delete the value of a key\nLIST - List all keys\nEXIT - Exit the database\nHELP - List all commands\n".to_owned(),
            close: false,
        }
    } else {
        LineReply { text: "ERROR Unknown command\n".to_owned(), close: false }
    }
}

} // verus!
