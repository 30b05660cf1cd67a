//! The persisted text format of the task list and its codec.
//!
//! A list is stored as one line of structured text: an array of
//! records, each holding the title (a quoted string with the usual
//! escapes) and the completion flag, in that order. [`json_of_tasks`]
//! is the format's definition; [`encode`] produces exactly it, and
//! [`decode`] accepts it back, returning `None` on any other input.
//! [`lemma_round_trip`] proves that decoding an encoded list yields
//! the list unchanged, field for field.

use vstd::prelude::*;
use vstd::arithmetic::div_mod::{lemma_fundamental_div_mod, lemma_mod_division_less_than_divisor};
use crate::task::{Task, TaskView};

verus! {

// ---------------------------------------------------------------------------
// The format, spec side: serialization.
// ---------------------------------------------------------------------------

/// The lowercase hexadecimal digit for a value below sixteen.
pub open spec fn hex_digit(n: int) -> char {
    if n < 10 {
        ((48 + n) as u8) as char
    } else {
        ((87 + n) as u8) as char
    }
}

/// How one title character is written: quote and backslash get a
/// backslash escape, control characters a four-digit escape, anything
/// else stands as itself.
pub open spec fn esc_char(c: char) -> Seq<char> {
    if c == '"' {
        seq!['\\', '"']
    } else if c == '\\' {
        seq!['\\', '\\']
    } else if (c as u32) < 32 {
        seq!['\\', 'u', '0', '0', hex_digit(((c as u32) / 16) as int), hex_digit(
            ((c as u32) % 16) as int,
        )]
    } else {
        seq![c]
    }
}

/// A whole title, written character by character.
pub open spec fn esc_str(s: Seq<char>) -> Seq<char>
    decreases s.len(),
{
    if s.len() == 0 {
        Seq::empty()
    } else {
        esc_char(s[0]) + esc_str(s.drop_first())
    }
}

/// The text opening a record, up to and including the title's opening
/// quote.
pub open spec fn title_open() -> Seq<char> {
    "{\"title\":\""@
}

/// The text between the title's closing quote and the completion flag,
/// the closing quote included.
pub open spec fn completed_open() -> Seq<char> {
    "\",\"completed\":"@
}

/// The same separator as read back: the title's closing quote is
/// already consumed by the string reader, so it starts at the comma.
pub open spec fn completed_sep() -> Seq<char> {
    ",\"completed\":"@
}

/// The completion flag as written.
pub open spec fn bool_chars(b: bool) -> Seq<char> {
    if b {
        "true"@
    } else {
        "false"@
    }
}

/// One record: title first, completion flag second.
pub open spec fn json_of_task(t: TaskView) -> Seq<char> {
    title_open() + esc_str(t.title) + completed_open() + bool_chars(t.completed) + seq!['}']
}

/// The records, separated by commas.
pub open spec fn json_of_items(ts: Seq<TaskView>) -> Seq<char>
    decreases ts.len(),
{
    if ts.len() == 0 {
        Seq::empty()
    } else if ts.len() == 1 {
        json_of_task(ts[0])
    } else {
        json_of_task(ts[0]) + seq![','] + json_of_items(ts.drop_first())
    }
}

/// The whole stored text: the records between brackets.
pub open spec fn json_of_tasks(ts: Seq<TaskView>) -> Seq<char> {
    seq!['['] + json_of_items(ts) + seq![']']
}

// ---------------------------------------------------------------------------
// The format, spec side: parsing. Each function consumes a prefix of
// the given text and yields the value read and the remaining suffix.
// ---------------------------------------------------------------------------

/// Lowercase hexadecimal digits.
pub open spec fn is_hex_digit(c: char) -> bool {
    (48 <= c as u32 && c as u32 <= 57) || (97 <= c as u32 && c as u32 <= 102)
}

/// The value of a lowercase hexadecimal digit.
pub open spec fn hex_val(c: char) -> int {
    if c as u32 <= 57 {
        c as int - 48
    } else {
        c as int - 87
    }
}

/// The character a single-letter escape stands for.
pub open spec fn unesc(e: char) -> char {
    if e == 'n' {
        '\n'
    } else if e == 't' {
        '\t'
    } else if e == 'r' {
        '\r'
    } else {
        e
    }
}

/// Reads a title up to and over its closing quote. Accepts the escapes
/// the writer produces, the three single-letter ones, and four-digit
/// escapes below 128; bare control characters are refused.
pub open spec fn sp_str(s: Seq<char>) -> Option<(Seq<char>, Seq<char>)>
    decreases s.len(),
{
    if s.len() == 0 {
        None
    } else if s[0] == '"' {
        Some((Seq::empty(), s.drop_first()))
    } else if s[0] == '\\' {
        if s.len() < 2 {
            None
        } else {
            let e = s[1];
            if e == '"' || e == '\\' || e == 'n' || e == 't' || e == 'r' {
                match sp_str(s.skip(2)) {
                    Some(p) => Some((seq![unesc(e)] + p.0, p.1)),
                    None => None,
                }
            } else if e == 'u' {
                if s.len() < 6 {
                    None
                } else if is_hex_digit(s[2]) && is_hex_digit(s[3]) && is_hex_digit(s[4])
                    && is_hex_digit(s[5]) {
                    let v = hex_val(s[2]) * 4096 + hex_val(s[3]) * 256 + hex_val(s[4]) * 16
                        + hex_val(s[5]);
                    if v < 128 {
                        match sp_str(s.skip(6)) {
                            Some(p) => Some((seq![((v as u8) as char)] + p.0, p.1)),
                            None => None,
                        }
                    } else {
                        None
                    }
                } else {
                    None
                }
            } else {
                None
            }
        }
    } else if (s[0] as u32) < 32 {
        None
    } else {
        match sp_str(s.drop_first()) {
            Some(p) => Some((seq![s[0]] + p.0, p.1)),
            None => None,
        }
    }
}

/// Reads the given fixed text.
pub open spec fn sp_lit(s: Seq<char>, lit: Seq<char>) -> Option<Seq<char>> {
    if lit.len() <= s.len() && s.take(lit.len() as int) == lit {
        Some(s.skip(lit.len() as int))
    } else {
        None
    }
}

/// Reads a completion flag.
pub open spec fn sp_bool(s: Seq<char>) -> Option<(bool, Seq<char>)> {
    if sp_lit(s, "true"@) is Some {
        Some((true, sp_lit(s, "true"@)->0))
    } else if sp_lit(s, "false"@) is Some {
        Some((false, sp_lit(s, "false"@)->0))
    } else {
        None
    }
}

/// Reads one record.
pub open spec fn sp_task(s: Seq<char>) -> Option<(TaskView, Seq<char>)> {
    match sp_lit(s, title_open()) {
        None => None,
        Some(s1) => match sp_str(s1) {
            None => None,
            Some(p1) => match sp_lit(p1.1, completed_sep()) {
                None => None,
                Some(s3) => match sp_bool(s3) {
                    None => None,
                    Some(p2) => match sp_lit(p2.1, seq!['}']) {
                        None => None,
                        Some(s5) => Some((TaskView { title: p1.0, completed: p2.0 }, s5)),
                    },
                },
            },
        },
    }
}

/// Reads one or more records separated by commas.
pub open spec fn sp_items(s: Seq<char>) -> Option<(Seq<TaskView>, Seq<char>)>
    decreases s.len() via sp_items_decreases
{
    match sp_task(s) {
        None => None,
        Some(p) => if p.1.len() > 0 && p.1[0] == ',' {
            match sp_items(p.1.drop_first()) {
                Some(q) => Some((seq![p.0] + q.0, q.1)),
                None => None,
            }
        } else {
            Some((seq![p.0], p.1))
        },
    }
}

#[via_fn]
proof fn sp_items_decreases(s: Seq<char>) {
    match sp_task(s) {
        None => {},
        Some(p) => {
            lemma_sp_task_consumes(s);
        },
    }
}

/// Reads a whole stored text: the records between brackets, with
/// nothing before or after. `None` stands for malformed text.
pub open spec fn sp_tasks(s: Seq<char>) -> Option<Seq<TaskView>> {
    if s.len() == 0 || s[0] != '[' {
        None
    } else {
        let s1 = s.drop_first();
        if s1.len() > 0 && s1[0] == ']' {
            if s1.len() == 1 {
                Some(Seq::empty())
            } else {
                None
            }
        } else {
            match sp_items(s1) {
                None => None,
                Some(p) => if p.1.len() == 1 && p.1[0] == ']' {
                    Some(p.0)
                } else {
                    None
                },
            }
        }
    }
}

// ---------------------------------------------------------------------------
// Consumption lemmas: every successful read leaves a strictly shorter
// suffix (the closing quote, at least, is consumed).
// ---------------------------------------------------------------------------

proof fn lemma_sp_str_consumes(s: Seq<char>)
    requires
        sp_str(s) is Some,
    ensures
        (sp_str(s)->0).1.len() < s.len(),
    decreases s.len(),
{
    if s[0] == '"' {
    } else if s[0] == '\\' {
        let e = s[1];
        if e == '"' || e == '\\' || e == 'n' || e == 't' || e == 'r' {
            lemma_sp_str_consumes(s.skip(2));
        } else {
            lemma_sp_str_consumes(s.skip(6));
        }
    } else {
        lemma_sp_str_consumes(s.drop_first());
    }
}

proof fn lemma_sp_task_consumes(s: Seq<char>)
    requires
        sp_task(s) is Some,
    ensures
        (sp_task(s)->0).1.len() < s.len(),
{
    let s1 = sp_lit(s, title_open())->0;
    lemma_sp_str_consumes(s1);
}

// ---------------------------------------------------------------------------
// Executable serializer.
// ---------------------------------------------------------------------------

/// The lowercase hexadecimal digit for a value below sixteen.
fn hex_digit_char(n: u8) -> (c: char)
    requires
        n < 16,
    ensures
        c == hex_digit(n as int),
{
    if n < 10 {
        (48 + n) as char
    } else {
        (87 + n) as char
    }
}

/// Appends one title character in its written form.
fn push_escaped(out: &mut String, c: char)
    ensures
        final(out)@ == old(out)@ + esc_char(c),
{
    if c == '"' {
        out.append("\\\"");
        proof {
            reveal_strlit("\\\"");
            assert(final(out)@ =~= old(out)@ + esc_char(c));
        }
    } else if c == '\\' {
        out.append("\\\\");
        proof {
            reveal_strlit("\\\\");
            assert(final(out)@ =~= old(out)@ + esc_char(c));
        }
    } else if (c as u32) < 32 {
        let v = c as u32;
        out.append("\\u00");
        crate::strutil::push_char(out, hex_digit_char((v / 16) as u8));
        crate::strutil::push_char(out, hex_digit_char((v % 16) as u8));
        proof {
            reveal_strlit("\\u00");
            assert(final(out)@ =~= old(out)@ + esc_char(c));
        }
    } else {
        crate::strutil::push_char(out, c);
        proof {
            assert(final(out)@ =~= old(out)@ + esc_char(c));
        }
    }
}

proof fn lemma_esc_str_snoc(s: Seq<char>, c: char)
    ensures
        esc_str(s.push(c)) == esc_str(s) + esc_char(c),
    decreases s.len(),
{
    if s.len() == 0 {
        assert(s.push(c)[0] == c);
        assert(s =~= Seq::<char>::empty());
        assert(s.push(c).drop_first() =~= s);
        assert(esc_str(s) == Seq::<char>::empty());
        assert(esc_str(s.push(c)) =~= esc_str(s) + esc_char(c));
    } else {
        assert(s.push(c).drop_first() =~= s.drop_first().push(c));
        lemma_esc_str_snoc(s.drop_first(), c);
        assert(esc_str(s.push(c)) =~= esc_str(s) + esc_char(c));
    }
}

/// Appends one record.
fn push_task(out: &mut String, t: &Task)
    ensures
        final(out)@ == old(out)@ + json_of_task(t@),
{
    out.append("{\"title\":\"");
    let title = t.title.as_str();
    let n = title.unicode_len();
    let mut j: usize = 0;
    while j < n
        invariant
            n == title@.len(),
            title@ == t.title@,
            j <= n,
            out@ == old(out)@ + title_open() + esc_str(title@.take(j as int)),
        decreases n - j,
    {
        let c = title.get_char(j);
        push_escaped(out, c);
        proof {
            assert(title@.take(j + 1int) =~= title@.take(j as int).push(title@[j as int]));
            lemma_esc_str_snoc(title@.take(j as int), title@[j as int]);
        }
        j = j + 1;
    }
    proof {
        assert(title@.take(n as int) =~= title@);
    }
    out.append("\",\"completed\":");
    if t.completed {
        out.append("true");
    } else {
        out.append("false");
    }
    crate::strutil::push_char(out, '}');
    proof {
        assert(final(out)@ =~= old(out)@ + json_of_task(t@));
    }
}

proof fn lemma_json_of_items_snoc(ts: Seq<TaskView>, t: TaskView)
    ensures
        ts.len() == 0 ==> json_of_items(ts.push(t)) == json_of_task(t),
        ts.len() > 0 ==> json_of_items(ts.push(t)) == json_of_items(ts) + seq![','] + json_of_task(
            t,
        ),
    decreases ts.len(),
{
    if ts.len() == 0 {
        assert(ts.push(t)[0] == t);
    } else {
        assert(ts.push(t).drop_first() =~= ts.drop_first().push(t));
        lemma_json_of_items_snoc(ts.drop_first(), t);
        assert(json_of_items(ts.push(t)) =~= json_of_items(ts) + seq![','] + json_of_task(t));
    }
}

/// Writes the whole list in the stored format.
pub fn encode(tasks: &Vec<Task>) -> (r: String)
    ensures
        r@ == json_of_tasks(tasks.deep_view()),
{
    let mut out = String::new();
    crate::strutil::push_char(&mut out, '[');
    let n = tasks.len();
    let mut i: usize = 0;
    while i < n
        invariant
            n == tasks.len(),
            i <= n,
            out@ == seq!['['] + json_of_items(tasks.deep_view().take(i as int)),
        decreases n - i,
    {
        if i > 0 {
            crate::strutil::push_char(&mut out, ',');
        }
        push_task(&mut out, &tasks[i]);
        proof {
            let dv = tasks.deep_view();
            assert(dv.take(i + 1int) =~= dv.take(i as int).push(dv[i as int]));
            assert(tasks[i as int].view() == dv[i as int]);
            lemma_json_of_items_snoc(dv.take(i as int), dv[i as int]);
            assert(out@ =~= seq!['['] + json_of_items(dv.take(i + 1int)));
        }
        i = i + 1;
    }
    crate::strutil::push_char(&mut out, ']');
    proof {
        assert(tasks.deep_view().take(n as int) =~= tasks.deep_view());
        assert(out@ =~= json_of_tasks(tasks.deep_view()));
    }
    out
}

// ---------------------------------------------------------------------------
// Executable parser. Each function reads from position `i` of the text
// and returns exactly what the corresponding spec reader yields on the
// suffix starting there.
// ---------------------------------------------------------------------------

/// The value of a lowercase hexadecimal digit, or `None`.
fn hex_val_char(c: char) -> (r: Option<u8>)
    ensures
        r is Some <==> is_hex_digit(c),
        r is Some ==> r->0 < 16 && r->0 as int == hex_val(c),
{
    let v = c as u32;
    if 48 <= v && v <= 57 {
        Some((v - 48) as u8)
    } else if 97 <= v && v <= 102 {
        Some((v - 87) as u8)
    } else {
        None
    }
}

/// Reads the given fixed text at position `i`.
fn expect_lit(s: &str, i: usize, lit: &str) -> (r: Option<usize>)
    requires
        i <= s@.len(),
    ensures
        r is Some ==> r->0 == i + lit@.len() && r->0 <= s@.len() && sp_lit(
            s@.skip(i as int),
            lit@,
        ) == Some(s@.skip(r->0 as int)),
        r is None ==> sp_lit(s@.skip(i as int), lit@) is None,
{
    let ghost rest = s@.skip(i as int);
    let n = s.unicode_len();
    let m = lit.unicode_len();
    if n - i < m {
        return None;
    }
    let mut j: usize = 0;
    while j < m
        invariant
            n == s@.len(),
            m == lit@.len(),
            i <= n,
            m <= n - i,
            j <= m,
            rest == s@.skip(i as int),
            forall|k: int| 0 <= k < j ==> rest[k] == lit@[k],
        decreases m - j,
    {
        let c = s.get_char(i + j);
        let l = lit.get_char(j);
        if c != l {
            proof {
                assert(rest[j as int] != lit@[j as int]);
                assert(sp_lit(rest, lit@) is None) by {
                    if rest.take(m as int) == lit@ {
                        assert(rest.take(m as int)[j as int] == lit@[j as int]);
                    }
                }
            }
            return None;
        }
        j = j + 1;
    }
    proof {
        assert(rest.take(m as int) =~= lit@);
        assert(rest.skip(m as int) =~= s@.skip(i + m));
    }
    Some(i + m)
}

/// Reads a title, from just after its opening quote up to and over its
/// closing quote.
fn parse_string(s: &str, i: usize) -> (r: Option<(String, usize)>)
    requires
        i <= s@.len(),
    ensures
        r is Some ==> i <= (r->0).1 <= s@.len() && sp_str(s@.skip(i as int)) == Some(
            (((r->0).0)@, s@.skip((r->0).1 as int)),
        ),
        r is None ==> sp_str(s@.skip(i as int)) is None,
    decreases s@.len() - i,
{
    let ghost rest = s@.skip(i as int);
    let n = s.unicode_len();
    if i == n {
        return None;
    }
    let c0 = s.get_char(i);
    proof {
        assert(rest[0] == c0);
    }
    if c0 == '"' {
        proof {
            assert(rest.drop_first() =~= s@.skip(i + 1int));
        }
        return Some((String::new(), i + 1));
    }
    if c0 == '\\' {
        if n - i < 2 {
            return None;
        }
        let e = s.get_char(i + 1);
        proof {
            assert(rest[1] == e);
        }
        if e == '"' || e == '\\' || e == 'n' || e == 't' || e == 'r' {
            let c = if e == 'n' {
                '\n'
            } else if e == 't' {
                '\t'
            } else if e == 'r' {
                '\r'
            } else {
                e
            };
            proof {
                assert(c == unesc(e));
                assert(rest.skip(2) =~= s@.skip(i + 2int));
            }
            match parse_string(s, i + 2) {
                None => None,
                Some(p) => {
                    let (t, j) = p;
                    let mut out = String::new();
                    crate::strutil::push_char(&mut out, c);
                    out.append(t.as_str());
                    proof {
                        assert(out@ =~= seq![unesc(e)] + t@);
                    }
                    Some((out, j))
                },
            }
        } else if e == 'u' {
            if n - i < 6 {
                return None;
            }
            let o2 = hex_val_char(s.get_char(i + 2));
            let o3 = hex_val_char(s.get_char(i + 3));
            let o4 = hex_val_char(s.get_char(i + 4));
            let o5 = hex_val_char(s.get_char(i + 5));
            proof {
                assert(rest[2] == s@[i + 2int]);
                assert(rest[3] == s@[i + 3int]);
                assert(rest[4] == s@[i + 4int]);
                assert(rest[5] == s@[i + 5int]);
            }
            if o2.is_none() || o3.is_none() || o4.is_none() || o5.is_none() {
                return None;
            }
            let v: u32 = (o2.unwrap() as u32) * 4096 + (o3.unwrap() as u32) * 256 + (o4.unwrap()
                as u32) * 16 + (o5.unwrap() as u32);
            if v >= 128 {
                return None;
            }
            let c = (v as u8) as char;
            proof {
                assert(rest.skip(6) =~= s@.skip(i + 6int));
            }
            match parse_string(s, i + 6) {
                None => None,
                Some(p) => {
                    let (t, j) = p;
                    let mut out = String::new();
                    crate::strutil::push_char(&mut out, c);
                    out.append(t.as_str());
                    proof {
                        assert(out@ =~= seq![c] + t@);
                    }
                    Some((out, j))
                },
            }
        } else {
            None
        }
    } else if (c0 as u32) < 32 {
        None
    } else {
        proof {
            assert(rest.drop_first() =~= s@.skip(i + 1int));
        }
        match parse_string(s, i + 1) {
            None => None,
            Some(p) => {
                let (t, j) = p;
                let mut out = String::new();
                crate::strutil::push_char(&mut out, c0);
                out.append(t.as_str());
                proof {
                    assert(out@ =~= seq![c0] + t@);
                }
                Some((out, j))
            },
        }
    }
}

/// Reads a completion flag at position `i`.
fn parse_bool(s: &str, i: usize) -> (r: Option<(bool, usize)>)
    requires
        i <= s@.len(),
    ensures
        r is Some ==> i <= (r->0).1 <= s@.len() && sp_bool(s@.skip(i as int)) == Some(
            ((r->0).0, s@.skip((r->0).1 as int)),
        ),
        r is None ==> sp_bool(s@.skip(i as int)) is None,
{
    match expect_lit(s, i, "true") {
        Some(j) => Some((true, j)),
        None => match expect_lit(s, i, "false") {
            Some(j) => Some((false, j)),
            None => None,
        },
    }
}

/// Reads one record at position `i`.
fn parse_task(s: &str, i: usize) -> (r: Option<(Task, usize)>)
    requires
        i <= s@.len(),
    ensures
        r is Some ==> i <= (r->0).1 <= s@.len() && sp_task(s@.skip(i as int)) == Some(
            (((r->0).0)@, s@.skip((r->0).1 as int)),
        ),
        r is None ==> sp_task(s@.skip(i as int)) is None,
{
    match expect_lit(s, i, "{\"title\":\"") {
        None => None,
        Some(j1) => match parse_string(s, j1) {
            None => None,
            Some(p1) => {
                let (title, j2) = p1;
                match expect_lit(s, j2, ",\"completed\":") {
                    None => None,
                    Some(j3) => match parse_bool(s, j3) {
                        None => None,
                        Some(p2) => {
                            let (completed, j4) = p2;
                            proof {
                                reveal_strlit("}");
                                assert("}"@ =~= seq!['}']);
                            }
                            match expect_lit(s, j4, "}") {
                                None => None,
                                Some(j5) => Some((Task { title, completed }, j5)),
                            }
                        },
                    },
                }
            },
        },
    }
}

/// Reads one or more records separated by commas, starting at `i`.
fn parse_items(s: &str, i: usize) -> (r: Option<(Vec<Task>, usize)>)
    requires
        i <= s@.len(),
    ensures
        r is Some ==> i <= (r->0).1 <= s@.len() && sp_items(s@.skip(i as int)) == Some(
            (((r->0).0).deep_view(), s@.skip((r->0).1 as int)),
        ),
        r is None ==> sp_items(s@.skip(i as int)) is None,
    decreases s@.len() - i,
{
    let n = s.unicode_len();
    match parse_task(s, i) {
        None => None,
        Some(p) => {
            let (t, j) = p;
            let comma = j < n && s.get_char(j) == ',';
            proof {
                let after = s@.skip(j as int);
                assert(after.len() == n - j);
                if j < n {
                    assert(after[0] == s@[j as int]);
                }
                if comma {
                    assert(after.drop_first() =~= s@.skip(j + 1int));
                }
            }
            if comma {
                match parse_items(s, j + 1) {
                    None => None,
                    Some(q) => {
                        let (mut ts, j2) = q;
                        let ghost prev = ts.deep_view();
                        let ghost prev_raw = ts@;
                        ts.insert(0, t);
                        proof {
                            assert(ts@ =~= seq![t] + prev_raw);
                            assert(ts.deep_view() =~= seq![t@] + prev);
                        }
                        Some((ts, j2))
                    },
                }
            } else {
                let mut v: Vec<Task> = Vec::new();
                v.push(t);
                proof {
                    assert(v.deep_view() =~= seq![t@]);
                }
                Some((v, j))
            }
        },
    }
}

/// Reads a whole stored text; `None` stands for malformed text.
pub fn decode(s: &str) -> (r: Option<Vec<Task>>)
    ensures
        r is Some ==> sp_tasks(s@) == Some((r->0).deep_view()),
        r is None ==> sp_tasks(s@) is None,
{
    let n = s.unicode_len();
    if n == 0 {
        return None;
    }
    if s.get_char(0) != '[' {
        return None;
    }
    proof {
        assert(s@.drop_first() =~= s@.skip(1));
        assert(s@.drop_first().len() == n - 1);
        if n >= 2 {
            assert(s@.drop_first()[0] == s@[1]);
        }
    }
    if n >= 2 && s.get_char(1) == ']' {
        if n == 2 {
            let v: Vec<Task> = Vec::new();
            proof {
                assert(v.deep_view() =~= Seq::<TaskView>::empty());
            }
            return Some(v);
        } else {
            return None;
        }
    }
    match parse_items(s, 1) {
        None => None,
        Some(p) => {
            let (v, j) = p;
            let good = j == n - 1 && s.get_char(j) == ']';
            proof {
                let after = s@.skip(j as int);
                assert(after.len() == n - j);
                if j < n {
                    assert(after[0] == s@[j as int]);
                }
            }
            if good {
                Some(v)
            } else {
                None
            }
        },
    }
}

/// The list a stored text stands for: what it holds when well formed,
/// the empty list when missing content or malformed. This is the
/// recovery policy at load time: corrupt data reads as empty state.
pub fn load_from_text(s: &str) -> (r: Vec<Task>)
    ensures
        r.deep_view() == (match sp_tasks(s@) {
            Some(ts) => ts,
            None => Seq::<TaskView>::empty(),
        }),
{
    match decode(s) {
        Some(v) => v,
        None => {
            let v: Vec<Task> = Vec::new();
            proof {
                assert(v.deep_view() =~= Seq::<TaskView>::empty());
            }
            v
        },
    }
}

// ---------------------------------------------------------------------------
// Round trip: reading a written list yields the list unchanged.
// ---------------------------------------------------------------------------

proof fn lemma_hex_digit_val(n: int)
    requires
        0 <= n < 16,
    ensures
        is_hex_digit(hex_digit(n)),
        hex_val(hex_digit(n)) == n,
{
    if n < 10 {
        assert(hex_digit(n) as u32 == 48 + n);
    } else {
        assert(hex_digit(n) as u32 == 87 + n);
    }
}

proof fn lemma_sp_lit_exact(lit: Seq<char>, rest: Seq<char>)
    ensures
        sp_lit(lit + rest, lit) == Some(rest),
{
    let s = lit + rest;
    assert(s.take(lit.len() as int) =~= lit);
    assert(s.skip(lit.len() as int) =~= rest);
}

proof fn lemma_sp_str_esc(t: Seq<char>, rest: Seq<char>)
    ensures
        sp_str(esc_str(t) + seq!['"'] + rest) == Some((t, rest)),
    decreases t.len(),
{
    let s = esc_str(t) + seq!['"'] + rest;
    if t.len() == 0 {
        assert(s =~= seq!['"'] + rest);
        assert(s[0] == '"');
        assert(s.drop_first() =~= rest);
        assert(t =~= Seq::<char>::empty());
    } else {
        let c = t[0];
        let t2 = t.drop_first();
        let s2 = esc_str(t2) + seq!['"'] + rest;
        assert(t =~= seq![c] + t2);
        assert(esc_str(t) == esc_char(c) + esc_str(t2));
        assert(s =~= esc_char(c) + s2);
        lemma_sp_str_esc(t2, rest);
        if c == '"' {
            assert(s[0] == '\\' && s[1] == '"');
            assert(s.skip(2) =~= s2);
            assert(unesc('"') == '"');
            assert(sp_str(s) == Some((seq![c] + t2, rest)));
            assert(seq![c] + t2 == t);
        } else if c == '\\' {
            assert(s[0] == '\\' && s[1] == '\\');
            assert(s.skip(2) =~= s2);
            assert(sp_str(s) == Some((seq![c] + t2, rest)));
            assert(seq![c] + t2 == t);
        } else if (c as u32) < 32 {
            let cu = c as u32;
            let ci = cu as int;
            lemma_fundamental_div_mod(ci, 16);
            lemma_mod_division_less_than_divisor(ci, 16);
            assert((cu / 16) as int == ci / 16);
            assert((cu % 16) as int == ci % 16);
            assert(0 <= ci % 16 < 16);
            assert(0 <= ci / 16 < 2);
            lemma_hex_digit_val(ci / 16);
            lemma_hex_digit_val(ci % 16);
            assert(s[0] == '\\' && s[1] == 'u' && s[2] == '0' && s[3] == '0');
            assert(s[4] == hex_digit(ci / 16) && s[5] == hex_digit(ci % 16));
            assert('0' as u32 == 48);
            assert(is_hex_digit('0') && hex_val('0') == 0);
            let v = hex_val(s[2]) * 4096 + hex_val(s[3]) * 256 + hex_val(s[4]) * 16 + hex_val(
                s[5],
            );
            assert(v == (ci / 16) * 16 + ci % 16);
            assert(v == ci);
            let b = v as u8;
            assert(b as u32 == cu);
            assert((b as char) as u32 == cu);
            vstd::utf8::char_u32_cast(c, cu);
            vstd::utf8::char_u32_cast((b as char), cu);
            assert(((v as u8) as char) == c);
            assert(s.skip(6) =~= s2);
            assert(sp_str(s) == Some((seq![c] + t2, rest)));
            assert(seq![c] + t2 == t);
        } else {
            assert(s[0] == c);
            assert(s.drop_first() =~= s2);
            assert(sp_str(s) == Some((seq![c] + t2, rest)));
            assert(seq![c] + t2 == t);
        }
    }
}

proof fn lemma_sp_bool_exact(b: bool, rest: Seq<char>)
    ensures
        sp_bool(bool_chars(b) + rest) == Some((b, rest)),
{
    reveal_strlit("true");
    reveal_strlit("false");
    let s = bool_chars(b) + rest;
    if b {
        lemma_sp_lit_exact("true"@, rest);
    } else {
        assert(s[0] == 'f');
        assert(sp_lit(s, "true"@) is None) by {
            if "true"@.len() <= s.len() && s.take("true"@.len() as int) == "true"@ {
                assert(s.take("true"@.len() as int)[0] == 't');
            }
        }
        lemma_sp_lit_exact("false"@, rest);
    }
}

proof fn lemma_sp_task_exact(t: TaskView, rest: Seq<char>)
    ensures
        sp_task(json_of_task(t) + rest) == Some((t, rest)),
{
    let s = json_of_task(t) + rest;
    let r4 = seq!['}'] + rest;
    let r3 = bool_chars(t.completed) + r4;
    let r2 = completed_sep() + r3;
    let r1 = esc_str(t.title) + seq!['"'] + r2;
    reveal_strlit("\",\"completed\":");
    reveal_strlit(",\"completed\":");
    assert(completed_open() =~= seq!['"'] + completed_sep());
    assert(s =~= title_open() + r1);
    lemma_sp_lit_exact(title_open(), r1);
    lemma_sp_str_esc(t.title, r2);
    lemma_sp_lit_exact(completed_sep(), r3);
    lemma_sp_bool_exact(t.completed, r4);
    lemma_sp_lit_exact(seq!['}'], rest);
    assert(TaskView { title: t.title, completed: t.completed } == t);
}

#[verifier::rlimit(50)]
proof fn lemma_sp_items_exact(ts: Seq<TaskView>, rest: Seq<char>)
    requires
        ts.len() > 0,
        rest.len() == 0 || rest[0] != ',',
    ensures
        sp_items(json_of_items(ts) + rest) == Some((ts, rest)),
    decreases ts.len(),
{
    let s = json_of_items(ts) + rest;
    if ts.len() == 1 {
        lemma_sp_task_exact(ts[0], rest);
        assert(sp_items(s) == Some((seq![ts[0]], rest)));
        assert(seq![ts[0]] =~= ts);
    } else {
        let ts2 = ts.drop_first();
        let r1 = seq![','] + json_of_items(ts2) + rest;
        assert(s =~= json_of_task(ts[0]) + r1);
        lemma_sp_task_exact(ts[0], r1);
        assert(r1[0] == ',');
        assert(r1.drop_first() =~= json_of_items(ts2) + rest);
        lemma_sp_items_exact(ts2, rest);
        assert(sp_items(s) == Some((seq![ts[0]] + ts2, rest)));
        assert(seq![ts[0]] + ts2 =~= ts);
    }
}

/// Round trip: any task list, written in the stored format and read
/// back, is recovered unchanged — every title, every completion flag,
/// in the same order.
pub proof fn lemma_round_trip(ts: Seq<TaskView>)
    ensures
        sp_tasks(json_of_tasks(ts)) == Some(ts),
{
    let s = json_of_tasks(ts);
    assert(s[0] == '[');
    let s1 = s.drop_first();
    assert(s1 =~= json_of_items(ts) + seq![']']);
    if ts.len() == 0 {
        assert(s1 =~= seq![']']);
        assert(ts =~= Seq::<TaskView>::empty());
    } else {
        reveal_strlit("{\"title\":\"");
        assert(json_of_task(ts[0])[0] == '{');
        assert(s1[0] == '{');
        lemma_sp_items_exact(ts, seq![']']);
        let p = sp_items(s1)->0;
        assert(p.1.len() == 1 && p.1[0] == ']');
    }
}

} // verus!
