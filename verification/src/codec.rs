//! The state-document codec: renders the catalog as a structured,
//! human-editable document and parses it back. Rendering and parsing are
//! exact inverses, which [`lemma_doc_roundtrip`] proves once and for all.
//!
//! The document is a sequence of records, one per registered resource:
//!
//! ```text
//! [[disk]]
//! name = "d1"
//! size = 20
//! [[machine]]
//! name = "vm1"
//! port = 8192
//! size = 64
//! [[snapshot]]
//! name = "s1"
//! base = "vm1"
//! port = 8192
//! size = 64
//! ```
//!
//! Names are quoted, with backslash escapes for the quote, the backslash
//! and the control characters that would break the line structure.

use vstd::prelude::*;
use crate::num;
use crate::text;

verus! {

use crate::disk::Disk;
use crate::disk::DiskV;
use crate::machine::Machine;
use crate::machine::MachineV;
use crate::snapshot::Snapshot;
use crate::snapshot::SnapshotV;

/// Characters that cannot stand raw inside a quoted name.
pub open spec fn needs_escape(c: char) -> bool {
    c == '\\' || c == '"' || c == '\n' || c == '\r' || c == '\t'
}

/// The rendering of one character inside a quoted name.
pub open spec fn esc_char(c: char) -> Seq<char> {
    if c == '\\' {
        seq!['\\', '\\']
    } else if c == '"' {
        seq!['\\', '"']
    } else if c == '\n' {
        seq!['\\', 'n']
    } else if c == '\r' {
        seq!['\\', 'r']
    } else if c == '\t' {
        seq!['\\', 't']
    } else {
        seq![c]
    }
}

/// The rendering of a whole name, without the surrounding quotes.
pub open spec fn escape(s: Seq<char>) -> Seq<char>
    decreases s.len(),
{
    if s.len() == 0 {
        Seq::<char>::empty()
    } else {
        esc_char(s[0]) + escape(s.drop_first())
    }
}

/// The character denoted by `c` when it follows a backslash.
pub open spec fn unesc(c: char) -> Option<char> {
    if c == '\\' {
        Some('\\')
    } else if c == '"' {
        Some('"')
    } else if c == 'n' {
        Some('\n')
    } else if c == 'r' {
        Some('\r')
    } else if c == 't' {
        Some('\t')
    } else {
        None
    }
}

/// Parses a quoted name from just after its opening quote up to and
/// including its closing quote; yields the name and the remainder.
pub open spec fn parse_quoted(s: Seq<char>) -> Option<(Seq<char>, Seq<char>)>
    decreases s.len(),
{
    if s.len() == 0 {
        None
    } else if s[0] == '"' {
        Some((Seq::<char>::empty(), s.drop_first()))
    } else if s[0] == '\\' {
        if s.len() < 2 {
            None
        } else {
            match unesc(s[1]) {
                None => None,
                Some(c) => match parse_quoted(s.skip(2)) {
                    None => None,
                    Some(p) => Some((seq![c] + p.0, p.1)),
                },
            }
        }
    } else if s[0] == '\n' {
        None
    } else {
        match parse_quoted(s.drop_first()) {
            None => None,
            Some(p) => Some((seq![s[0]] + p.0, p.1)),
        }
    }
}

/// A successful quoted parse consumes at least one character, and the
/// remainder is never longer than the input.
pub proof fn lemma_parse_quoted_len(s: Seq<char>)
    ensures
        parse_quoted(s) matches Some(p) ==> p.1.len() < s.len(),
    decreases s.len(),
{
    if s.len() > 0 && s[0] == '\\' && s.len() >= 2 && unesc(s[1]) is Some {
        lemma_parse_quoted_len(s.skip(2));
        assert(s.skip(2).len() == s.len() - 2);
    } else if s.len() > 0 && s[0] != '"' && s[0] != '\\' && s[0] != '\n' {
        lemma_parse_quoted_len(s.drop_first());
    }
}

/// Parsing inverts escaping: the escaped name, the closing quote and any
/// remainder parse back to exactly the name and the remainder.
pub proof fn lemma_quoted_roundtrip(x: Seq<char>, rest: Seq<char>)
    ensures
        parse_quoted(escape(x) + seq!['"'] + rest) == Some((x, rest)),
    decreases x.len(),
{
    if x.len() == 0 {
        assert(escape(x) + seq!['"'] + rest =~= seq!['"'] + rest);
        let s = seq!['"'] + rest;
        assert(s[0] == '"');
        assert(s.drop_first() =~= rest);
        assert(Seq::<char>::empty() =~= x);
    } else {
        let c = x[0];
        let x1 = x.drop_first();
        lemma_quoted_roundtrip(x1, rest);
        let tail = escape(x1) + seq!['"'] + rest;
        let s = escape(x) + seq!['"'] + rest;
        assert(escape(x) == esc_char(c) + escape(x1));
        assert(s =~= esc_char(c) + tail);
        if needs_escape(c) {
            assert(esc_char(c).len() == 2);
            assert(s[0] == esc_char(c)[0]);
            assert(s[1] == esc_char(c)[1]);
            assert(s[0] == '\\');
            assert(unesc(esc_char(c)[1]) == Some(c));
            assert(s.skip(2) =~= tail);
            assert(parse_quoted(s) == Some((seq![c] + x1, rest)));
            assert(seq![c] + x1 =~= x);
        } else {
            assert(esc_char(c) =~= seq![c]);
            assert(s[0] == c);
            assert(s[0] != '"' && s[0] != '\\' && s[0] != '\n');
            assert(s.drop_first() =~= tail);
            assert(parse_quoted(s) == Some((seq![c] + x1, rest)));
            assert(seq![c] + x1 =~= x);
        }
    }
}

/// Appends the escaped rendering of `name` to `out`.
pub fn push_escaped(out: &mut Vec<char>, name: &Vec<char>)
    ensures
        final(out)@ == old(out)@ + escape(name@),
{
    let mut i: usize = 0;
    while i < name.len()
        invariant
            i <= name.len(),
            out@ == old(out)@ + escape(name@.take(i as int)),
        decreases name.len() - i,
    {
        let c = name[i];
        proof {
            lemma_escape_take_step(name@, i as int);
        }
        if c == '\\' {
            out.push('\\');
            out.push('\\');
        } else if c == '"' {
            out.push('\\');
            out.push('"');
        } else if c == '\n' {
            out.push('\\');
            out.push('n');
        } else if c == '\r' {
            out.push('\\');
            out.push('r');
        } else if c == '\t' {
            out.push('\\');
            out.push('t');
        } else {
            out.push(c);
        }
        proof {
            assert(out@ =~= old(out)@ + escape(name@.take(i as int)) + esc_char(name@[i as int]));
        }
        i = i + 1;
    }
    proof {
        assert(name@.take(name@.len() as int) =~= name@);
    }
}

/// Prepends `pre` to the parsed value of a quoted parse result.
pub open spec fn opt_prepend(pre: Seq<char>, o: Option<(Seq<char>, Seq<char>)>) -> Option<
    (Seq<char>, Seq<char>),
> {
    match o {
        None => None,
        Some(p) => Some((pre + p.0, p.1)),
    }
}

proof fn lemma_opt_prepend_assoc(a: Seq<char>, b: Seq<char>, o: Option<(Seq<char>, Seq<char>)>)
    ensures
        opt_prepend(a, opt_prepend(b, o)) == opt_prepend(a + b, o),
{
    match o {
        None => {},
        Some(p) => {
            assert(a + (b + p.0) =~= (a + b) + p.0);
        },
    }
}

fn unesc_char(c: char) -> (r: Option<char>)
    ensures
        r == unesc(c),
{
    if c == '\\' {
        Some('\\')
    } else if c == '"' {
        Some('"')
    } else if c == 'n' {
        Some('\n')
    } else if c == 'r' {
        Some('\r')
    } else if c == 't' {
        Some('\t')
    } else {
        None
    }
}

/// Scans a quoted name in `v` starting at `i` (just after the opening
/// quote); yields the unescaped name and the position after the closing
/// quote.
pub fn scan_quoted(v: &Vec<char>, i: usize) -> (r: Option<(Vec<char>, usize)>)
    requires
        i <= v.len(),
    ensures
        match r {
            Some(p) => i <= p.1 <= v.len() && parse_quoted(v@.skip(i as int)) == Some(
                (p.0@, v@.skip(p.1 as int)),
            ),
            None => parse_quoted(v@.skip(i as int)) is None,
        },
{
    let mut acc: Vec<char> = Vec::new();
    let mut cur: usize = i;
    loop
        invariant
            i <= cur <= v.len(),
            parse_quoted(v@.skip(i as int)) == opt_prepend(
                acc@,
                parse_quoted(v@.skip(cur as int)),
            ),
        decreases v.len() - cur,
    {
        if cur == v.len() {
            proof {
                assert(v@.skip(cur as int) =~= Seq::<char>::empty());
            }
            return None;
        }
        let c = v[cur];
        proof {
            assert(v@.skip(cur as int)[0] == v@[cur as int]);
        }
        if c == '"' {
            proof {
                assert(v@.skip(cur as int).drop_first() =~= v@.skip(cur as int + 1));
                assert(acc@ + Seq::<char>::empty() =~= acc@);
            }
            return Some((acc, cur + 1));
        } else if c == '\\' {
            if cur + 1 == v.len() {
                return None;
            }
            let c2 = v[cur + 1];
            proof {
                assert(v@.skip(cur as int)[1] == v@[cur as int + 1]);
                assert(v@.skip(cur as int).skip(2) =~= v@.skip(cur as int + 2));
            }
            match unesc_char(c2) {
                None => {
                    return None;
                },
                Some(u) => {
                    proof {
                        lemma_opt_prepend_assoc(
                            acc@,
                            seq![u],
                            parse_quoted(v@.skip(cur as int + 2)),
                        );
                        assert(acc@ + seq![u] =~= acc@.push(u));
                    }
                    acc.push(u);
                    cur = cur + 2;
                },
            }
        } else if c == '\n' {
            return None;
        } else {
            proof {
                assert(v@.skip(cur as int).drop_first() =~= v@.skip(cur as int + 1));
                lemma_opt_prepend_assoc(acc@, seq![c], parse_quoted(v@.skip(cur as int + 1)));
                assert(acc@ + seq![c] =~= acc@.push(c));
            }
            acc.push(c);
            cur = cur + 1;
        }
    }
}

/// `p` opens `s`.
pub open spec fn starts_with(s: Seq<char>, p: Seq<char>) -> bool {
    p.len() <= s.len() && s.subrange(0, p.len() as int) == p
}

/// Consumes the exact prefix `p` of `s`.
pub open spec fn expect(s: Seq<char>, p: Seq<char>) -> Option<Seq<char>> {
    if starts_with(s, p) {
        Some(s.skip(p.len() as int))
    } else {
        None
    }
}

/// Consuming a prefix that is there by construction yields the tail.
pub proof fn lemma_expect_concat(p: Seq<char>, tail: Seq<char>)
    ensures
        expect(p + tail, p) == Some(tail),
{
    assert((p + tail).subrange(0, p.len() as int) =~= p);
    assert((p + tail).skip(p.len() as int) =~= tail);
}

/// Checks whether the characters of `p` open `v` at position `i`.
pub fn starts_at(v: &Vec<char>, i: usize, p: &str) -> (b: bool)
    requires
        i <= v.len(),
    ensures
        b == starts_with(v@.skip(i as int), p@),
{
    let pc = text::chars_of(p);
    if v.len() - i < pc.len() {
        return false;
    }
    let mut j: usize = 0;
    while j < pc.len()
        invariant
            j <= pc.len(),
            i <= v.len(),
            pc.len() <= v.len() - i,
            pc@ == p@,
            forall|k: int| 0 <= k < j ==> v@.skip(i as int)[k] == p@[k],
        decreases pc.len() - j,
    {
        if v[i + j] != pc[j] {
            proof {
                assert(v@.skip(i as int)[j as int] != p@[j as int]);
                assert(!starts_with(v@.skip(i as int), p@)) by {
                    if starts_with(v@.skip(i as int), p@) {
                        assert(v@.skip(i as int).subrange(0, p@.len() as int)[j as int] == p@[j as int]);
                    }
                }
            }
            return false;
        }
        j = j + 1;
    }
    proof {
        assert(v@.skip(i as int).subrange(0, p@.len() as int) =~= p@);
    }
    true
}

pub open spec fn kw_disk() -> Seq<char> {
    seq!['[', '[', 'd', 'i', 's', 'k', ']', ']', '\n']
}

pub open spec fn kw_disk_backup() -> Seq<char> {
    seq!['[', '[', 'd', 'i', 's', 'k', '_', 'b', 'a', 'c', 'k', 'u', 'p', ']', ']', '\n']
}

pub open spec fn kw_machine_backup() -> Seq<char> {
    seq![
        '[',
        '[',
        'm',
        'a',
        'c',
        'h',
        'i',
        'n',
        'e',
        '_',
        'b',
        'a',
        'c',
        'k',
        'u',
        'p',
        ']',
        ']',
        '\n',
    ]
}

pub open spec fn kw_machine() -> Seq<char> {
    seq!['[', '[', 'm', 'a', 'c', 'h', 'i', 'n', 'e', ']', ']', '\n']
}

pub open spec fn kw_snapshot() -> Seq<char> {
    seq!['[', '[', 's', 'n', 'a', 'p', 's', 'h', 'o', 't', ']', ']', '\n']
}

pub open spec fn kw_name() -> Seq<char> {
    seq!['n', 'a', 'm', 'e', ' ', '=', ' ', '"']
}

pub open spec fn kw_base() -> Seq<char> {
    seq!['b', 'a', 's', 'e', ' ', '=', ' ', '"']
}

pub open spec fn kw_size() -> Seq<char> {
    seq!['s', 'i', 'z', 'e', ' ', '=', ' ']
}

pub open spec fn kw_port() -> Seq<char> {
    seq!['p', 'o', 'r', 't', ' ', '=', ' ']
}

/// The character sequences of the literals used by the renderer and the
/// scanner coincide with the keyword sequences of the grammar.
pub proof fn lemma_literals()
    ensures
        "[[disk]]\n"@ == kw_disk(),
        "[[disk_backup]]\n"@ == kw_disk_backup(),
        "[[machine_backup]]\n"@ == kw_machine_backup(),
        "[[machine]]\n"@ == kw_machine(),
        "[[snapshot]]\n"@ == kw_snapshot(),
        "name = \""@ == kw_name(),
        "base = \""@ == kw_base(),
        "size = "@ == kw_size(),
        "port = "@ == kw_port(),
        "\"\n"@ == seq!['"', '\n'],
        "\n"@ == seq!['\n'],
{
    reveal_strlit("[[disk]]\n");
    reveal_strlit("[[disk_backup]]\n");
    reveal_strlit("[[machine_backup]]\n");
    reveal_strlit("[[machine]]\n");
    reveal_strlit("[[snapshot]]\n");
    reveal_strlit("name = \"");
    reveal_strlit("base = \"");
    reveal_strlit("size = ");
    reveal_strlit("port = ");
    reveal_strlit("\"\n");
    reveal_strlit("\n");
    assert("[[disk]]\n"@ =~= kw_disk());
    assert("[[disk_backup]]\n"@ =~= kw_disk_backup());
    assert("[[machine_backup]]\n"@ =~= kw_machine_backup());
    assert("[[machine]]\n"@ =~= kw_machine());
    assert("[[snapshot]]\n"@ =~= kw_snapshot());
    assert("name = \""@ =~= kw_name());
    assert("base = \""@ =~= kw_base());
    assert("size = "@ =~= kw_size());
    assert("port = "@ =~= kw_port());
    assert("\"\n"@ =~= seq!['"', '\n']);
    assert("\n"@ =~= seq!['\n']);
}

/// A greedy decimal parse bounded by `max`; yields the value and the
/// remainder, and fails when no digit opens `s` or the value is too large.
pub open spec fn parse_num(s: Seq<char>, max: nat) -> Option<(nat, Seq<char>)> {
    let m = num::parse_dec(s, 0);
    if m.1 == 0 || m.0 > max {
        None
    } else {
        Some((m.0, s.skip(m.1)))
    }
}

pub proof fn lemma_num_roundtrip(n: nat, rest: Seq<char>, max: nat)
    requires
        n <= max,
        rest.len() > 0 ==> !num::is_digit(rest[0]),
    ensures
        parse_num(num::dec_rep(n) + rest, max) == Some((n, rest)),
{
    num::lemma_dec_rep_digits(n);
    num::lemma_parse_dec_append(num::dec_rep(n), rest, 0);
    num::lemma_parse_dec_rep(n);
    assert((num::dec_rep(n) + rest).skip(num::dec_rep(n).len() as int) =~= rest);
}

pub proof fn lemma_parse_num_len(s: Seq<char>, max: nat)
    ensures
        parse_num(s, max) matches Some(p) ==> p.1.len() < s.len(),
{
    num::lemma_parse_dec_len(s, 0);
    num::lemma_parse_dec_lower(s, 0);
}

pub open spec fn render_disk_body(d: DiskV) -> Seq<char> {
    kw_name() + escape(d.name) + seq!['"', '\n'] + kw_size() + num::dec_rep(d.size) + seq!['\n']
}

/// One disk record under the section header `kw`.
pub open spec fn render_disk(d: DiskV, kw: Seq<char>) -> Seq<char> {
    kw + render_disk_body(d)
}

pub open spec fn parse_disk_body(s: Seq<char>) -> Option<(DiskV, Seq<char>)> {
    match expect(s, kw_name()) {
        None => None,
        Some(s1) => match parse_quoted(s1) {
            None => None,
            Some(p1) => match expect(p1.1, seq!['\n']) {
                None => None,
                Some(s2) => match expect(s2, kw_size()) {
                    None => None,
                    Some(s3) => match parse_num(s3, usize::MAX as nat) {
                        None => None,
                        Some(p2) => match expect(p2.1, seq!['\n']) {
                            None => None,
                            Some(s4) => Some((DiskV { name: p1.0, size: p2.0 }, s4)),
                        },
                    },
                },
            },
        },
    }
}

pub proof fn lemma_disk_body_roundtrip(d: DiskV, rest: Seq<char>)
    requires
        d.size <= usize::MAX,
    ensures
        parse_disk_body(render_disk_body(d) + rest) == Some((d, rest)),
{
    let u2 = kw_size() + (num::dec_rep(d.size) + (seq!['\n'] + rest));
    let u1 = seq!['\n'] + u2;
    let u0 = escape(d.name) + seq!['"'] + u1;
    assert(render_disk_body(d) + rest =~= kw_name() + u0);
    lemma_expect_concat(kw_name(), u0);
    lemma_quoted_roundtrip(d.name, u1);
    lemma_expect_concat(seq!['\n'], u2);
    lemma_expect_concat(kw_size(), num::dec_rep(d.size) + (seq!['\n'] + rest));
    lemma_num_roundtrip(d.size, seq!['\n'] + rest, usize::MAX as nat);
    lemma_expect_concat(seq!['\n'], rest);
}

pub proof fn lemma_parse_disk_body_len(s: Seq<char>)
    ensures
        parse_disk_body(s) matches Some(p) ==> p.1.len() < s.len(),
{
    match expect(s, kw_name()) {
        None => {},
        Some(s1) => {
            lemma_parse_quoted_len(s1);
            match parse_quoted(s1) {
                None => {},
                Some(p1) => {
                    match expect(p1.1, seq!['\n']) {
                        None => {},
                        Some(s2) => {
                            match expect(s2, kw_size()) {
                                None => {},
                                Some(s3) => {
                                    lemma_parse_num_len(s3, usize::MAX as nat);
                                },
                            }
                        },
                    }
                },
            }
        },
    }
}

pub open spec fn render_machine_body(m: MachineV) -> Seq<char> {
    kw_name() + escape(m.name) + seq!['"', '\n'] + kw_port() + num::dec_rep(m.port) + seq!['\n']
        + kw_size() + num::dec_rep(m.size) + seq!['\n']
}

/// One machine record under the section header `kw`.
pub open spec fn render_machine(m: MachineV, kw: Seq<char>) -> Seq<char> {
    kw + render_machine_body(m)
}

pub open spec fn parse_machine_body(s: Seq<char>) -> Option<(MachineV, Seq<char>)> {
    match expect(s, kw_name()) {
        None => None,
        Some(s1) => match parse_quoted(s1) {
            None => None,
            Some(p1) => match expect(p1.1, seq!['\n']) {
                None => None,
                Some(s2) => match expect(s2, kw_port()) {
                    None => None,
                    Some(s3) => match parse_num(s3, u16::MAX as nat) {
                        None => None,
                        Some(p2) => match expect(p2.1, seq!['\n']) {
                            None => None,
                            Some(s4) => match expect(s4, kw_size()) {
                                None => None,
                                Some(s5) => match parse_num(s5, usize::MAX as nat) {
                                    None => None,
                                    Some(p3) => match expect(p3.1, seq!['\n']) {
                                        None => None,
                                        Some(s6) => Some(
                                            (
                                                MachineV {
                                                    name: p1.0,
                                                    port: p2.0,
                                                    size: p3.0,
                                                },
                                                s6,
                                            ),
                                        ),
                                    },
                                },
                            },
                        },
                    },
                },
            },
        },
    }
}

pub proof fn lemma_machine_body_roundtrip(m: MachineV, rest: Seq<char>)
    requires
        m.port <= u16::MAX,
        m.size <= usize::MAX,
    ensures
        parse_machine_body(render_machine_body(m) + rest) == Some((m, rest)),
{
    let u4 = kw_size() + (num::dec_rep(m.size) + (seq!['\n'] + rest));
    let u3 = kw_port() + (num::dec_rep(m.port) + (seq!['\n'] + u4));
    let u1 = seq!['\n'] + u3;
    let u0 = escape(m.name) + seq!['"'] + u1;
    assert(render_machine_body(m) + rest =~= kw_name() + u0);
    lemma_expect_concat(kw_name(), u0);
    lemma_quoted_roundtrip(m.name, u1);
    lemma_expect_concat(seq!['\n'], u3);
    lemma_expect_concat(kw_port(), num::dec_rep(m.port) + (seq!['\n'] + u4));
    lemma_num_roundtrip(m.port, seq!['\n'] + u4, u16::MAX as nat);
    lemma_expect_concat(seq!['\n'], u4);
    lemma_expect_concat(kw_size(), num::dec_rep(m.size) + (seq!['\n'] + rest));
    lemma_num_roundtrip(m.size, seq!['\n'] + rest, usize::MAX as nat);
    lemma_expect_concat(seq!['\n'], rest);
}

pub proof fn lemma_parse_machine_body_len(s: Seq<char>)
    ensures
        parse_machine_body(s) matches Some(p) ==> p.1.len() < s.len(),
{
    match expect(s, kw_name()) {
        None => {},
        Some(s1) => {
            lemma_parse_quoted_len(s1);
            match parse_quoted(s1) {
                None => {},
                Some(p1) => {
                    match expect(p1.1, seq!['\n']) {
                        None => {},
                        Some(s2) => {
                            match expect(s2, kw_port()) {
                                None => {},
                                Some(s3) => {
                                    lemma_parse_num_len(s3, u16::MAX as nat);
                                    match parse_num(s3, u16::MAX as nat) {
                                        None => {},
                                        Some(p2) => {
                                            match expect(p2.1, seq!['\n']) {
                                                None => {},
                                                Some(s4) => {
                                                    match expect(s4, kw_size()) {
                                                        None => {},
                                                        Some(s5) => {
                                                            lemma_parse_num_len(
                                                                s5,
                                                                usize::MAX as nat,
                                                            );
                                                        },
                                                    }
                                                },
                                            }
                                        },
                                    }
                                },
                            }
                        },
                    }
                },
            }
        },
    }
}

pub open spec fn render_snapshot_body(n: SnapshotV) -> Seq<char> {
    kw_name() + escape(n.name) + seq!['"', '\n'] + kw_base() + escape(n.base) + seq!['"', '\n']
        + kw_port() + num::dec_rep(n.port) + seq!['\n'] + kw_size() + num::dec_rep(n.size)
        + seq!['\n']
}

pub open spec fn render_snapshot(n: SnapshotV) -> Seq<char> {
    kw_snapshot() + render_snapshot_body(n)
}

pub open spec fn parse_snapshot_body(s: Seq<char>) -> Option<(SnapshotV, Seq<char>)> {
    match expect(s, kw_name()) {
        None => None,
        Some(s1) => match parse_quoted(s1) {
            None => None,
            Some(p1) => match expect(p1.1, seq!['\n']) {
                None => None,
                Some(s2) => match expect(s2, kw_base()) {
                    None => None,
                    Some(s3) => match parse_quoted(s3) {
                        None => None,
                        Some(p2) => match expect(p2.1, seq!['\n']) {
                            None => None,
                            Some(s4) => match expect(s4, kw_port()) {
                                None => None,
                                Some(s5) => match parse_num(s5, u16::MAX as nat) {
                                    None => None,
                                    Some(p3) => match expect(p3.1, seq!['\n']) {
                                        None => None,
                                        Some(s6) => match expect(s6, kw_size()) {
                                            None => None,
                                            Some(s7) => match parse_num(s7, usize::MAX as nat) {
                                                None => None,
                                                Some(p4) => match expect(p4.1, seq!['\n']) {
                                                    None => None,
                                                    Some(s8) => Some(
                                                        (
                                                            SnapshotV {
                                                                name: p1.0,
                                                                base: p2.0,
                                                                port: p3.0,
                                                                size: p4.0,
                                                            },
                                                            s8,
                                                        ),
                                                    ),
                                                },
                                            },
                                        },
                                    },
                                },
                            },
                        },
                    },
                },
            },
        },
    }
}

pub proof fn lemma_snapshot_body_roundtrip(n: SnapshotV, rest: Seq<char>)
    requires
        n.port <= u16::MAX,
        n.size <= usize::MAX,
    ensures
        parse_snapshot_body(render_snapshot_body(n) + rest) == Some((n, rest)),
{
    let u6 = kw_size() + (num::dec_rep(n.size) + (seq!['\n'] + rest));
    let u5 = kw_port() + (num::dec_rep(n.port) + (seq!['\n'] + u6));
    let u3 = kw_base() + (escape(n.base) + seq!['"'] + (seq!['\n'] + u5));
    let u1 = seq!['\n'] + u3;
    let u0 = escape(n.name) + seq!['"'] + u1;
    assert(render_snapshot_body(n) + rest =~= kw_name() + u0);
    lemma_expect_concat(kw_name(), u0);
    lemma_quoted_roundtrip(n.name, u1);
    lemma_expect_concat(seq!['\n'], u3);
    lemma_expect_concat(kw_base(), escape(n.base) + seq!['"'] + (seq!['\n'] + u5));
    lemma_quoted_roundtrip(n.base, seq!['\n'] + u5);
    lemma_expect_concat(seq!['\n'], u5);
    lemma_expect_concat(kw_port(), num::dec_rep(n.port) + (seq!['\n'] + u6));
    lemma_num_roundtrip(n.port, seq!['\n'] + u6, u16::MAX as nat);
    lemma_expect_concat(seq!['\n'], u6);
    lemma_expect_concat(kw_size(), num::dec_rep(n.size) + (seq!['\n'] + rest));
    lemma_num_roundtrip(n.size, seq!['\n'] + rest, usize::MAX as nat);
    lemma_expect_concat(seq!['\n'], rest);
}

pub proof fn lemma_parse_snapshot_body_len(s: Seq<char>)
    ensures
        parse_snapshot_body(s) matches Some(p) ==> p.1.len() < s.len(),
{
    match expect(s, kw_name()) {
        None => {},
        Some(s1) => {
            lemma_parse_quoted_len(s1);
            match parse_quoted(s1) {
                None => {},
                Some(p1) => {
                    match expect(p1.1, seq!['\n']) {
                        None => {},
                        Some(s2) => {
                            match expect(s2, kw_base()) {
                                None => {},
                                Some(s3) => {
                                    lemma_parse_quoted_len(s3);
                                    match parse_quoted(s3) {
                                        None => {},
                                        Some(p2) => {
                                            match expect(p2.1, seq!['\n']) {
                                                None => {},
                                                Some(s4) => {
                                                    match expect(s4, kw_port()) {
                                                        None => {},
                                                        Some(s5) => {
                                                            lemma_parse_num_len(
                                                                s5,
                                                                u16::MAX as nat,
                                                            );
                                                            match parse_num(s5, u16::MAX as nat) {
                                                                None => {},
                                                                Some(p3) => {
                                                                    match expect(
                                                                        p3.1,
                                                                        seq!['\n'],
                                                                    ) {
                                                                        None => {},
                                                                        Some(s6) => {
                                                                            match expect(
                                                                                s6,
                                                                                kw_size(),
                                                                            ) {
                                                                                None => {},
                                                                                Some(s7) => {
                                                                                    lemma_parse_num_len(
                                                                                        s7,
                                                                                        usize::MAX
                                                                                            as nat,
                                                                                    );
                                                                                },
                                                                            }
                                                                        },
                                                                    }
                                                                },
                                                            }
                                                        },
                                                    }
                                                },
                                            }
                                        },
                                    }
                                },
                            }
                        },
                    }
                },
            }
        },
    }
}

pub open spec fn render_disks(ds: Seq<DiskV>, kw: Seq<char>) -> Seq<char>
    decreases ds.len(),
{
    if ds.len() == 0 {
        Seq::<char>::empty()
    } else {
        render_disk(ds[0], kw) + render_disks(ds.drop_first(), kw)
    }
}

pub open spec fn render_machines(ms: Seq<MachineV>, kw: Seq<char>) -> Seq<char>
    decreases ms.len(),
{
    if ms.len() == 0 {
        Seq::<char>::empty()
    } else {
        render_machine(ms[0], kw) + render_machines(ms.drop_first(), kw)
    }
}

pub open spec fn render_snapshots(ns: Seq<SnapshotV>) -> Seq<char>
    decreases ns.len(),
{
    if ns.len() == 0 {
        Seq::<char>::empty()
    } else {
        render_snapshot(ns[0]) + render_snapshots(ns.drop_first())
    }
}

pub open spec fn parse_disks(s: Seq<char>, kw: Seq<char>) -> Option<(Seq<DiskV>, Seq<char>)>
    decreases s.len(),
    via parse_disks_dec
{
    if starts_with(s, kw) {
        match parse_disk_body(s.skip(kw.len() as int)) {
            None => None,
            Some(p) => match parse_disks(p.1, kw) {
                None => None,
                Some(q) => Some((seq![p.0] + q.0, q.1)),
            },
        }
    } else {
        Some((Seq::<DiskV>::empty(), s))
    }
}

#[via_fn]
proof fn parse_disks_dec(s: Seq<char>, kw: Seq<char>) {
    if starts_with(s, kw) {
        lemma_parse_disk_body_len(s.skip(kw.len() as int));
    }
}

pub open spec fn parse_machines(s: Seq<char>, kw: Seq<char>) -> Option<(Seq<MachineV>, Seq<char>)>
    decreases s.len(),
    via parse_machines_dec
{
    if starts_with(s, kw) {
        match parse_machine_body(s.skip(kw.len() as int)) {
            None => None,
            Some(p) => match parse_machines(p.1, kw) {
                None => None,
                Some(q) => Some((seq![p.0] + q.0, q.1)),
            },
        }
    } else {
        Some((Seq::<MachineV>::empty(), s))
    }
}

#[via_fn]
proof fn parse_machines_dec(s: Seq<char>, kw: Seq<char>) {
    if starts_with(s, kw) {
        lemma_parse_machine_body_len(s.skip(kw.len() as int));
    }
}

pub open spec fn parse_snapshots(s: Seq<char>) -> Option<(Seq<SnapshotV>, Seq<char>)>
    decreases s.len(),
    via parse_snapshots_dec
{
    if starts_with(s, kw_snapshot()) {
        match parse_snapshot_body(s.skip(kw_snapshot().len() as int)) {
            None => None,
            Some(p) => match parse_snapshots(p.1) {
                None => None,
                Some(q) => Some((seq![p.0] + q.0, q.1)),
            },
        }
    } else {
        Some((Seq::<SnapshotV>::empty(), s))
    }
}

#[via_fn]
proof fn parse_snapshots_dec(s: Seq<char>) {
    if starts_with(s, kw_snapshot()) {
        lemma_parse_snapshot_body_len(s.skip(kw_snapshot().len() as int));
    }
}

/// Every disk size a catalog can hold fits the machine word.
pub open spec fn disks_bounded(ds: Seq<DiskV>) -> bool {
    forall|i: int| 0 <= i < ds.len() ==> (#[trigger] ds[i]).size <= usize::MAX
}

pub open spec fn machines_bounded(ms: Seq<MachineV>) -> bool {
    forall|i: int|
        0 <= i < ms.len() ==> (#[trigger] ms[i]).port <= u16::MAX && ms[i].size <= usize::MAX
}

pub open spec fn snapshots_bounded(ns: Seq<SnapshotV>) -> bool {
    forall|i: int|
        0 <= i < ns.len() ==> (#[trigger] ns[i]).port <= u16::MAX && ns[i].size <= usize::MAX
}

pub proof fn lemma_disks_roundtrip(ds: Seq<DiskV>, rest: Seq<char>, kw: Seq<char>)
    requires
        disks_bounded(ds),
        !starts_with(rest, kw),
    ensures
        parse_disks(render_disks(ds, kw) + rest, kw) == Some((ds, rest)),
    decreases ds.len(),
{
    if ds.len() == 0 {
        assert(render_disks(ds, kw) + rest =~= rest);
        assert(Seq::<DiskV>::empty() =~= ds);
    } else {
        let d = ds[0];
        let tail = render_disks(ds.drop_first(), kw) + rest;
        let s = render_disks(ds, kw) + rest;
        assert(s =~= kw + (render_disk_body(d) + tail));
        lemma_expect_concat(kw, render_disk_body(d) + tail);
        assert(starts_with(s, kw) && s.skip(kw.len() as int) == render_disk_body(d) + tail) by {
            assert(expect(s, kw) is Some);
        }
        lemma_disk_body_roundtrip(d, tail);
        lemma_disks_roundtrip(ds.drop_first(), rest, kw);
        assert(seq![d] + ds.drop_first() =~= ds);
    }
}

pub proof fn lemma_machines_roundtrip(ms: Seq<MachineV>, rest: Seq<char>, kw: Seq<char>)
    requires
        machines_bounded(ms),
        !starts_with(rest, kw),
    ensures
        parse_machines(render_machines(ms, kw) + rest, kw) == Some((ms, rest)),
    decreases ms.len(),
{
    if ms.len() == 0 {
        assert(render_machines(ms, kw) + rest =~= rest);
        assert(Seq::<MachineV>::empty() =~= ms);
    } else {
        let m = ms[0];
        let tail = render_machines(ms.drop_first(), kw) + rest;
        let s = render_machines(ms, kw) + rest;
        assert(s =~= kw + (render_machine_body(m) + tail));
        lemma_expect_concat(kw, render_machine_body(m) + tail);
        assert(starts_with(s, kw) && s.skip(kw.len() as int) == render_machine_body(m) + tail)
            by {
            assert(expect(s, kw) is Some);
        }
        lemma_machine_body_roundtrip(m, tail);
        lemma_machines_roundtrip(ms.drop_first(), rest, kw);
        assert(seq![m] + ms.drop_first() =~= ms);
    }
}

pub proof fn lemma_snapshots_roundtrip(ns: Seq<SnapshotV>, rest: Seq<char>)
    requires
        snapshots_bounded(ns),
        !starts_with(rest, kw_snapshot()),
    ensures
        parse_snapshots(render_snapshots(ns) + rest) == Some((ns, rest)),
    decreases ns.len(),
{
    if ns.len() == 0 {
        assert(render_snapshots(ns) + rest =~= rest);
        assert(Seq::<SnapshotV>::empty() =~= ns);
    } else {
        let n = ns[0];
        let tail = render_snapshots(ns.drop_first()) + rest;
        let s = render_snapshots(ns) + rest;
        assert(s =~= kw_snapshot() + (render_snapshot_body(n) + tail));
        lemma_expect_concat(kw_snapshot(), render_snapshot_body(n) + tail);
        assert(starts_with(s, kw_snapshot()) && s.skip(kw_snapshot().len() as int)
            == render_snapshot_body(n) + tail) by {
            assert(expect(s, kw_snapshot()) is Some);
        }
        lemma_snapshot_body_roundtrip(n, tail);
        lemma_snapshots_roundtrip(ns.drop_first(), rest);
        assert(seq![n] + ns.drop_first() =~= ns);
    }
}

/// The whole state document.
pub open spec fn render_doc(ds: Seq<DiskV>, ms: Seq<MachineV>, ns: Seq<SnapshotV>) -> Seq<char> {
    render_disks(ds, kw_disk()) + render_machines(ms, kw_machine()) + render_snapshots(ns)
}

/// Parses a whole state document; fails unless every character is consumed.
pub open spec fn parse_doc(s: Seq<char>) -> Option<
    (Seq<DiskV>, Seq<MachineV>, Seq<SnapshotV>),
> {
    match parse_disks(s, kw_disk()) {
        None => None,
        Some(p) => match parse_machines(p.1, kw_machine()) {
            None => None,
            Some(q) => match parse_snapshots(q.1) {
                None => None,
                Some(r) => if r.1.len() == 0 {
                    Some((p.0, q.0, r.0))
                } else {
                    None
                },
            },
        },
    }
}

/// Parsing inverts rendering: the document of any bounded catalog parses
/// back to exactly that catalog.
#[verifier::rlimit(100)]
#[verifier::spinoff_prover]
pub proof fn lemma_doc_roundtrip(ds: Seq<DiskV>, ms: Seq<MachineV>, ns: Seq<SnapshotV>)
    requires
        disks_bounded(ds),
        machines_bounded(ms),
        snapshots_bounded(ns),
    ensures
        parse_doc(render_doc(ds, ms, ns)) == Some((ds, ms, ns)),
{
    let rest_d = render_machines(ms, kw_machine()) + render_snapshots(ns);
    let rest_m = render_snapshots(ns);
    let rest_n = Seq::<char>::empty();
    assert(render_doc(ds, ms, ns) =~= render_disks(ds, kw_disk()) + rest_d);
    assert(!starts_with(rest_d, kw_disk())) by {
        if starts_with(rest_d, kw_disk()) {
            if ms.len() > 0 {
                assert(rest_d =~= kw_machine() + (render_machine_body(ms[0]) + rest_m));
                assert(rest_d.subrange(0, kw_disk().len() as int)[2] == kw_disk()[2]);
                assert(rest_d[2] == kw_machine()[2]);
            } else if ns.len() > 0 {
                assert(rest_d =~= kw_snapshot() + (render_snapshot_body(ns[0]) + rest_n));
                assert(rest_d.subrange(0, kw_disk().len() as int)[2] == kw_disk()[2]);
                assert(rest_d[2] == kw_snapshot()[2]);
            } else {
                assert(rest_d =~= Seq::<char>::empty());
            }
        }
    }
    lemma_disks_roundtrip(ds, rest_d, kw_disk());
    assert(!starts_with(rest_m, kw_machine())) by {
        if starts_with(rest_m, kw_machine()) {
            if ns.len() > 0 {
                assert(rest_m =~= kw_snapshot() + (render_snapshot_body(ns[0]) + rest_n));
                assert(rest_m.subrange(0, kw_machine().len() as int)[2] == kw_machine()[2]);
                assert(rest_m[2] == kw_snapshot()[2]);
            } else {
                assert(rest_m =~= Seq::<char>::empty());
            }
        }
    }
    lemma_machines_roundtrip(ms, rest_m, kw_machine());
    assert(!starts_with(rest_n, kw_snapshot()));
    assert(render_snapshots(ns) =~= render_snapshots(ns) + rest_n);
    lemma_snapshots_roundtrip(ns, rest_n);
}

pub open spec fn disk_views(s: Seq<Disk>) -> Seq<DiskV> {
    s.map_values(|d: Disk| d@)
}

pub open spec fn machine_views(s: Seq<Machine>) -> Seq<MachineV> {
    s.map_values(|m: Machine| m@)
}

pub open spec fn snapshot_views(s: Seq<Snapshot>) -> Seq<SnapshotV> {
    s.map_values(|n: Snapshot| n@)
}

proof fn lemma_render_disks_take(s: Seq<DiskV>, i: int, kw: Seq<char>)
    requires
        0 <= i < s.len(),
    ensures
        render_disks(s.take(i + 1), kw) == render_disks(s.take(i), kw) + render_disk(s[i], kw),
    decreases i,
{
    let a = s.take(i + 1);
    let b = s.take(i);
    if i == 0 {
        assert(b =~= Seq::<DiskV>::empty());
        assert(a =~= seq![s[0]]);
        assert(a.drop_first() =~= Seq::<DiskV>::empty());
        assert(render_disks(a, kw) =~= render_disk(s[0], kw) + render_disks(a.drop_first(), kw));
        assert(render_disks(b, kw) + render_disk(s[0], kw) =~= render_disk(s[0], kw));
    } else {
        lemma_render_disks_take(s.drop_first(), i - 1, kw);
        assert(a[0] == s[0]);
        assert(b[0] == s[0]);
        assert(a.drop_first() =~= s.drop_first().take(i));
        assert(b.drop_first() =~= s.drop_first().take(i - 1));
        assert(s.drop_first()[i - 1] == s[i]);
        assert(render_disks(b, kw) + render_disk(s[i], kw) =~= render_disk(s[0], kw) + (
        render_disks(s.drop_first().take(i - 1), kw) + render_disk(s[i], kw)));
    }
}

proof fn lemma_render_machines_take(s: Seq<MachineV>, i: int, kw: Seq<char>)
    requires
        0 <= i < s.len(),
    ensures
        render_machines(s.take(i + 1), kw) == render_machines(s.take(i), kw) + render_machine(
            s[i],
            kw,
        ),
    decreases i,
{
    let a = s.take(i + 1);
    let b = s.take(i);
    if i == 0 {
        assert(b =~= Seq::<MachineV>::empty());
        assert(a =~= seq![s[0]]);
        assert(a.drop_first() =~= Seq::<MachineV>::empty());
        assert(render_machines(a, kw) =~= render_machine(s[0], kw) + render_machines(
            a.drop_first(),
            kw,
        ));
        assert(render_machines(b, kw) + render_machine(s[0], kw) =~= render_machine(s[0], kw));
    } else {
        lemma_render_machines_take(s.drop_first(), i - 1, kw);
        assert(a[0] == s[0]);
        assert(b[0] == s[0]);
        assert(a.drop_first() =~= s.drop_first().take(i));
        assert(b.drop_first() =~= s.drop_first().take(i - 1));
        assert(s.drop_first()[i - 1] == s[i]);
        assert(render_machines(b, kw) + render_machine(s[i], kw) =~= render_machine(s[0], kw) + (
        render_machines(s.drop_first().take(i - 1), kw) + render_machine(s[i], kw)));
    }
}

proof fn lemma_render_snapshots_take(s: Seq<SnapshotV>, i: int)
    requires
        0 <= i < s.len(),
    ensures
        render_snapshots(s.take(i + 1)) == render_snapshots(s.take(i)) + render_snapshot(s[i]),
    decreases i,
{
    let a = s.take(i + 1);
    let b = s.take(i);
    if i == 0 {
        assert(b =~= Seq::<SnapshotV>::empty());
        assert(a =~= seq![s[0]]);
        assert(a.drop_first() =~= Seq::<SnapshotV>::empty());
        assert(render_snapshots(a) =~= render_snapshot(s[0]) + render_snapshots(a.drop_first()));
        assert(render_snapshots(b) + render_snapshot(s[0]) =~= render_snapshot(s[0]));
    } else {
        lemma_render_snapshots_take(s.drop_first(), i - 1);
        assert(a[0] == s[0]);
        assert(b[0] == s[0]);
        assert(a.drop_first() =~= s.drop_first().take(i));
        assert(b.drop_first() =~= s.drop_first().take(i - 1));
        assert(s.drop_first()[i - 1] == s[i]);
        assert(render_snapshots(b) + render_snapshot(s[i]) =~= render_snapshot(s[0])
            + (render_snapshots(s.drop_first().take(i - 1)) + render_snapshot(s[i])));
    }
}

/// Appends the record of one disk to `out`, under the header `kw`.
fn push_disk_record(out: &mut Vec<char>, d: &Disk, kw: &str)
    ensures
        final(out)@ == old(out)@ + render_disk(d@, kw@),
{
    proof {
        lemma_literals();
    }
    text::push_str_chars(out, kw);
    text::push_str_chars(out, "name = \"");
    let name_chars = text::chars_of(d.name.as_str());
    push_escaped(out, &name_chars);
    text::push_str_chars(out, "\"\n");
    text::push_str_chars(out, "size = ");
    let digits = num::u64_to_dec(d.size as u64);
    text::push_chars(out, &digits);
    text::push_str_chars(out, "\n");
    proof {
        assert(out@ =~= old(out)@ + render_disk(d@, kw@));
    }
}

/// Appends the record of one machine to `out`, under the header `kw`.
fn push_machine_record(out: &mut Vec<char>, m: &Machine, kw: &str)
    ensures
        final(out)@ == old(out)@ + render_machine(m@, kw@),
{
    proof {
        lemma_literals();
    }
    text::push_str_chars(out, kw);
    text::push_str_chars(out, "name = \"");
    let name_chars = text::chars_of(m.name.as_str());
    push_escaped(out, &name_chars);
    text::push_str_chars(out, "\"\n");
    text::push_str_chars(out, "port = ");
    let port_digits = num::u64_to_dec(m.port as u64);
    text::push_chars(out, &port_digits);
    text::push_str_chars(out, "\n");
    text::push_str_chars(out, "size = ");
    let size_digits = num::u64_to_dec(m.size as u64);
    text::push_chars(out, &size_digits);
    text::push_str_chars(out, "\n");
    proof {
        assert(out@ =~= old(out)@ + render_machine(m@, kw@));
    }
}

/// Appends the record of one snapshot to `out`.
fn push_snapshot_record(out: &mut Vec<char>, n: &Snapshot)
    ensures
        final(out)@ == old(out)@ + render_snapshot(n@),
{
    proof {
        lemma_literals();
    }
    text::push_str_chars(out, "[[snapshot]]\n");
    text::push_str_chars(out, "name = \"");
    let name_chars = text::chars_of(n.name.as_str());
    push_escaped(out, &name_chars);
    text::push_str_chars(out, "\"\n");
    text::push_str_chars(out, "base = \"");
    let base_chars = text::chars_of(n.base.as_str());
    push_escaped(out, &base_chars);
    text::push_str_chars(out, "\"\n");
    text::push_str_chars(out, "port = ");
    let port_digits = num::u64_to_dec(n.port as u64);
    text::push_chars(out, &port_digits);
    text::push_str_chars(out, "\n");
    text::push_str_chars(out, "size = ");
    let size_digits = num::u64_to_dec(n.size as u64);
    text::push_chars(out, &size_digits);
    text::push_str_chars(out, "\n");
    proof {
        assert(out@ =~= old(out)@ + render_snapshot(n@));
    }
}

/// Appends every disk record, under the header `kw`.
fn push_disk_section(out: &mut Vec<char>, disks: &Vec<Disk>, kw: &str)
    ensures
        final(out)@ == old(out)@ + render_disks(disk_views(disks@), kw@),
{
    let mut i: usize = 0;
    proof {
        assert(disk_views(disks@).take(0) =~= Seq::<DiskV>::empty());
        assert(out@ + render_disks(disk_views(disks@).take(0), kw@) =~= out@);
    }
    while i < disks.len()
        invariant
            i <= disks.len(),
            out@ == old(out)@ + render_disks(disk_views(disks@).take(i as int), kw@),
        decreases disks.len() - i,
    {
        proof {
            lemma_render_disks_take(disk_views(disks@), i as int, kw@);
            assert(old(out)@ + render_disks(disk_views(disks@).take(i as int), kw@) + render_disk(
                disk_views(disks@)[i as int],
                kw@,
            ) =~= old(out)@ + (render_disks(disk_views(disks@).take(i as int), kw@) + render_disk(
                disk_views(disks@)[i as int],
                kw@,
            )));
        }
        push_disk_record(out, &disks[i], kw);
        i = i + 1;
    }
    proof {
        assert(disk_views(disks@).take(disks@.len() as int) =~= disk_views(disks@));
    }
}

/// Appends every machine record, under the header `kw`.
fn push_machine_section(out: &mut Vec<char>, machines: &Vec<Machine>, kw: &str)
    ensures
        final(out)@ == old(out)@ + render_machines(machine_views(machines@), kw@),
{
    let mut i: usize = 0;
    proof {
        assert(machine_views(machines@).take(0) =~= Seq::<MachineV>::empty());
        assert(out@ + render_machines(machine_views(machines@).take(0), kw@) =~= out@);
    }
    while i < machines.len()
        invariant
            i <= machines.len(),
            out@ == old(out)@ + render_machines(machine_views(machines@).take(i as int), kw@),
        decreases machines.len() - i,
    {
        proof {
            lemma_render_machines_take(machine_views(machines@), i as int, kw@);
            assert(old(out)@ + render_machines(machine_views(machines@).take(i as int), kw@)
                + render_machine(machine_views(machines@)[i as int], kw@) =~= old(out)@ + (
            render_machines(machine_views(machines@).take(i as int), kw@) + render_machine(
                machine_views(machines@)[i as int],
                kw@,
            )));
        }
        push_machine_record(out, &machines[i], kw);
        i = i + 1;
    }
    proof {
        assert(machine_views(machines@).take(machines@.len() as int) =~= machine_views(machines@));
    }
}

/// Appends every snapshot record.
fn push_snapshot_section(out: &mut Vec<char>, snapshots: &Vec<Snapshot>)
    ensures
        final(out)@ == old(out)@ + render_snapshots(snapshot_views(snapshots@)),
{
    let mut i: usize = 0;
    proof {
        assert(snapshot_views(snapshots@).take(0) =~= Seq::<SnapshotV>::empty());
        assert(out@ + render_snapshots(snapshot_views(snapshots@).take(0)) =~= out@);
    }
    while i < snapshots.len()
        invariant
            i <= snapshots.len(),
            out@ == old(out)@ + render_snapshots(snapshot_views(snapshots@).take(i as int)),
        decreases snapshots.len() - i,
    {
        proof {
            lemma_render_snapshots_take(snapshot_views(snapshots@), i as int);
            assert(old(out)@ + render_snapshots(snapshot_views(snapshots@).take(i as int))
                + render_snapshot(snapshot_views(snapshots@)[i as int]) =~= old(out)@ + (
            render_snapshots(snapshot_views(snapshots@).take(i as int)) + render_snapshot(
                snapshot_views(snapshots@)[i as int],
            )));
        }
        push_snapshot_record(out, &snapshots[i]);
        i = i + 1;
    }
    proof {
        assert(snapshot_views(snapshots@).take(snapshots@.len() as int) =~= snapshot_views(
            snapshots@,
        ));
    }
}

/// Renders the whole catalog as the state document.
pub fn render_catalog(disks: &Vec<Disk>, machines: &Vec<Machine>, snapshots: &Vec<Snapshot>) -> (r:
    Vec<char>)
    ensures
        r@ == render_doc(disk_views(disks@), machine_views(machines@), snapshot_views(snapshots@)),
{
    proof {
        lemma_literals();
    }
    let mut out: Vec<char> = Vec::new();
    push_disk_section(&mut out, disks, "[[disk]]\n");
    push_machine_section(&mut out, machines, "[[machine]]\n");
    push_snapshot_section(&mut out, snapshots);
    proof {
        assert(out@ =~= render_doc(
            disk_views(disks@),
            machine_views(machines@),
            snapshot_views(snapshots@),
        ));
    }
    out
}

/// The whole library document: disks, disk backups, machines, machine
/// backups.
pub open spec fn render_library_doc(
    ds: Seq<DiskV>,
    bds: Seq<DiskV>,
    ms: Seq<MachineV>,
    bms: Seq<MachineV>,
) -> Seq<char> {
    render_disks(ds, kw_disk()) + render_disks(bds, kw_disk_backup()) + render_machines(
        ms,
        kw_machine(),
    ) + render_machines(bms, kw_machine_backup())
}

/// Parses a whole library document; fails unless every character is
/// consumed.
pub open spec fn parse_library_doc(s: Seq<char>) -> Option<
    (Seq<DiskV>, Seq<DiskV>, Seq<MachineV>, Seq<MachineV>),
> {
    match parse_disks(s, kw_disk()) {
        None => None,
        Some(p) => match parse_disks(p.1, kw_disk_backup()) {
            None => None,
            Some(q) => match parse_machines(q.1, kw_machine()) {
                None => None,
                Some(u) => match parse_machines(u.1, kw_machine_backup()) {
                    None => None,
                    Some(w) => if w.1.len() == 0 {
                        Some((p.0, q.0, u.0, w.0))
                    } else {
                        None
                    },
                },
            },
        },
    }
}

/// Parsing inverts rendering for the library document too.
#[verifier::rlimit(100)]
#[verifier::spinoff_prover]
pub proof fn lemma_library_doc_roundtrip(
    ds: Seq<DiskV>,
    bds: Seq<DiskV>,
    ms: Seq<MachineV>,
    bms: Seq<MachineV>,
)
    requires
        disks_bounded(ds),
        disks_bounded(bds),
        machines_bounded(ms),
        machines_bounded(bms),
    ensures
        parse_library_doc(render_library_doc(ds, bds, ms, bms)) == Some((ds, bds, ms, bms)),
{
    let rest_d = render_disks(bds, kw_disk_backup()) + (render_machines(ms, kw_machine())
        + render_machines(bms, kw_machine_backup()));
    let rest_b = render_machines(ms, kw_machine()) + render_machines(bms, kw_machine_backup());
    let rest_m = render_machines(bms, kw_machine_backup());
    let rest_n = Seq::<char>::empty();
    assert(render_library_doc(ds, bds, ms, bms) =~= render_disks(ds, kw_disk()) + rest_d);
    assert(!starts_with(rest_d, kw_disk())) by {
        if starts_with(rest_d, kw_disk()) {
            if bds.len() > 0 {
                assert(rest_d =~= kw_disk_backup() + (render_disk_body(bds[0]) + rest_b));
                assert(rest_d.subrange(0, kw_disk().len() as int)[6] == kw_disk()[6]);
                assert(rest_d[6] == kw_disk_backup()[6]);
            } else if ms.len() > 0 {
                assert(rest_d =~= kw_machine() + (render_machine_body(ms[0]) + rest_m));
                assert(rest_d.subrange(0, kw_disk().len() as int)[2] == kw_disk()[2]);
                assert(rest_d[2] == kw_machine()[2]);
            } else if bms.len() > 0 {
                assert(rest_d =~= kw_machine_backup() + (render_machine_body(bms[0]) + rest_n));
                assert(rest_d.subrange(0, kw_disk().len() as int)[2] == kw_disk()[2]);
                assert(rest_d[2] == kw_machine_backup()[2]);
            } else {
                assert(rest_d =~= Seq::<char>::empty());
            }
        }
    }
    lemma_disks_roundtrip(ds, rest_d, kw_disk());
    assert(rest_d =~= render_disks(bds, kw_disk_backup()) + rest_b);
    assert(!starts_with(rest_b, kw_disk_backup())) by {
        if starts_with(rest_b, kw_disk_backup()) {
            if ms.len() > 0 {
                assert(rest_b =~= kw_machine() + (render_machine_body(ms[0]) + rest_m));
                assert(rest_b.subrange(0, kw_disk_backup().len() as int)[2] == kw_disk_backup()[
                    2
                ]);
                assert(rest_b[2] == kw_machine()[2]);
            } else if bms.len() > 0 {
                assert(rest_b =~= kw_machine_backup() + (render_machine_body(bms[0]) + rest_n));
                assert(rest_b.subrange(0, kw_disk_backup().len() as int)[2] == kw_disk_backup()[
                    2
                ]);
                assert(rest_b[2] == kw_machine_backup()[2]);
            } else {
                assert(rest_b =~= Seq::<char>::empty());
            }
        }
    }
    lemma_disks_roundtrip(bds, rest_b, kw_disk_backup());
    assert(!starts_with(rest_m, kw_machine())) by {
        if starts_with(rest_m, kw_machine()) {
            if bms.len() > 0 {
                assert(rest_m =~= kw_machine_backup() + (render_machine_body(bms[0]) + rest_n));
                assert(rest_m.subrange(0, kw_machine().len() as int)[9] == kw_machine()[9]);
                assert(rest_m[9] == kw_machine_backup()[9]);
            } else {
                assert(rest_m =~= Seq::<char>::empty());
            }
        }
    }
    lemma_machines_roundtrip(ms, rest_m, kw_machine());
    assert(!starts_with(rest_n, kw_machine_backup()));
    assert(render_machines(bms, kw_machine_backup()) =~= render_machines(
        bms,
        kw_machine_backup(),
    ) + rest_n);
    lemma_machines_roundtrip(bms, rest_n, kw_machine_backup());
}

/// Renders the whole library catalog as the library document.
pub fn render_library_catalog(
    disks: &Vec<Disk>,
    disk_backups: &Vec<Disk>,
    machines: &Vec<Machine>,
    machine_backups: &Vec<Machine>,
) -> (r: Vec<char>)
    ensures
        r@ == render_library_doc(
            disk_views(disks@),
            disk_views(disk_backups@),
            machine_views(machines@),
            machine_views(machine_backups@),
        ),
{
    proof {
        lemma_literals();
    }
    let mut out: Vec<char> = Vec::new();
    push_disk_section(&mut out, disks, "[[disk]]\n");
    push_disk_section(&mut out, disk_backups, "[[disk_backup]]\n");
    push_machine_section(&mut out, machines, "[[machine]]\n");
    push_machine_section(&mut out, machine_backups, "[[machine_backup]]\n");
    proof {
        assert(out@ =~= render_library_doc(
            disk_views(disks@),
            disk_views(disk_backups@),
            machine_views(machines@),
            machine_views(machine_backups@),
        ));
    }
    out
}

/// Consumes the literal `p` at position `i` of `v`, yielding the position
/// after it.
fn expect_at(v: &Vec<char>, i: usize, p: &str) -> (r: Option<usize>)
    requires
        i <= v.len(),
    ensures
        match r {
            Some(j) => i <= j <= v.len() && j == i + p@.len() && expect(v@.skip(i as int), p@)
                == Some(v@.skip(j as int)),
            None => expect(v@.skip(i as int), p@) is None,
        },
{
    let pc = text::chars_of(p);
    if starts_at(v, i, p) {
        proof {
            assert(v@.skip(i as int).skip(p@.len() as int) =~= v@.skip(i as int + p@.len() as int));
        }
        Some(i + pc.len())
    } else {
        None
    }
}

/// Scans a bounded decimal number at position `i` of `v`.
fn scan_num(v: &Vec<char>, i: usize, max: u64) -> (r: Option<(u64, usize)>)
    requires
        i <= v.len(),
    ensures
        match r {
            Some(p) => i <= p.1 <= v.len() && p.0 <= max && parse_num(
                v@.skip(i as int),
                max as nat,
            ) == Some((p.0 as nat, v@.skip(p.1 as int))),
            None => parse_num(v@.skip(i as int), max as nat) is None,
        },
{
    proof {
        num::lemma_parse_dec_len(v@.skip(i as int), 0);
    }
    match num::parse_u64_at(v, i, 0) {
        None => None,
        Some(p) => {
            if p.1 == 0 {
                None
            } else if p.0 > max {
                None
            } else {
                proof {
                    assert(v@.skip(i as int).skip(parse_dec_count(v@.skip(i as int))) =~= v@.skip(
                        i as int + parse_dec_count(v@.skip(i as int)),
                    ));
                }
                Some((p.0, i + p.1))
            }
        },
    }
}

/// The number of characters a greedy decimal parse consumes.
pub open spec fn parse_dec_count(s: Seq<char>) -> int {
    num::parse_dec(s, 0).1
}

/// Scans one disk record body (everything after its header line).
fn scan_disk_body(v: &Vec<char>, i: usize) -> (r: Option<(Disk, usize)>)
    requires
        i <= v.len(),
    ensures
        match r {
            Some(p) => i <= p.1 <= v.len() && parse_disk_body(v@.skip(i as int)) == Some(
                (p.0@, v@.skip(p.1 as int)),
            ),
            None => parse_disk_body(v@.skip(i as int)) is None,
        },
{
    proof {
        lemma_literals();
    }
    let i1 = match expect_at(v, i, "name = \"") {
        None => {
            return None;
        },
        Some(j) => j,
    };
    let (name_chars, i2) = match scan_quoted(v, i1) {
        None => {
            return None;
        },
        Some(p) => p,
    };
    let i3 = match expect_at(v, i2, "\n") {
        None => {
            return None;
        },
        Some(j) => j,
    };
    let i4 = match expect_at(v, i3, "size = ") {
        None => {
            return None;
        },
        Some(j) => j,
    };
    let (size, i5) = match scan_num(v, i4, usize::MAX as u64) {
        None => {
            return None;
        },
        Some(p) => p,
    };
    let i6 = match expect_at(v, i5, "\n") {
        None => {
            return None;
        },
        Some(j) => j,
    };
    let name = text::string_of(&name_chars);
    Some((Disk { name, size: size as usize }, i6))
}

/// Scans one machine record body.
fn scan_machine_body(v: &Vec<char>, i: usize) -> (r: Option<(Machine, usize)>)
    requires
        i <= v.len(),
    ensures
        match r {
            Some(p) => i <= p.1 <= v.len() && parse_machine_body(v@.skip(i as int)) == Some(
                (p.0@, v@.skip(p.1 as int)),
            ),
            None => parse_machine_body(v@.skip(i as int)) is None,
        },
{
    proof {
        lemma_literals();
    }
    let i1 = match expect_at(v, i, "name = \"") {
        None => {
            return None;
        },
        Some(j) => j,
    };
    let (name_chars, i2) = match scan_quoted(v, i1) {
        None => {
            return None;
        },
        Some(p) => p,
    };
    let i3 = match expect_at(v, i2, "\n") {
        None => {
            return None;
        },
        Some(j) => j,
    };
    let i4 = match expect_at(v, i3, "port = ") {
        None => {
            return None;
        },
        Some(j) => j,
    };
    let (port, i5) = match scan_num(v, i4, u16::MAX as u64) {
        None => {
            return None;
        },
        Some(p) => p,
    };
    let i6 = match expect_at(v, i5, "\n") {
        None => {
            return None;
        },
        Some(j) => j,
    };
    let i7 = match expect_at(v, i6, "size = ") {
        None => {
            return None;
        },
        Some(j) => j,
    };
    let (size, i8) = match scan_num(v, i7, usize::MAX as u64) {
        None => {
            return None;
        },
        Some(p) => p,
    };
    let i9 = match expect_at(v, i8, "\n") {
        None => {
            return None;
        },
        Some(j) => j,
    };
    let name = text::string_of(&name_chars);
    Some((Machine { name, port: port as u16, size: size as usize }, i9))
}

/// Scans one snapshot record body.
fn scan_snapshot_body(v: &Vec<char>, i: usize) -> (r: Option<(Snapshot, usize)>)
    requires
        i <= v.len(),
    ensures
        match r {
            Some(p) => i <= p.1 <= v.len() && parse_snapshot_body(v@.skip(i as int)) == Some(
                (p.0@, v@.skip(p.1 as int)),
            ),
            None => parse_snapshot_body(v@.skip(i as int)) is None,
        },
{
    proof {
        lemma_literals();
    }
    let i1 = match expect_at(v, i, "name = \"") {
        None => {
            return None;
        },
        Some(j) => j,
    };
    let (name_chars, i2) = match scan_quoted(v, i1) {
        None => {
            return None;
        },
        Some(p) => p,
    };
    let i3 = match expect_at(v, i2, "\n") {
        None => {
            return None;
        },
        Some(j) => j,
    };
    let i4 = match expect_at(v, i3, "base = \"") {
        None => {
            return None;
        },
        Some(j) => j,
    };
    let (base_chars, i5) = match scan_quoted(v, i4) {
        None => {
            return None;
        },
        Some(p) => p,
    };
    let i6 = match expect_at(v, i5, "\n") {
        None => {
            return None;
        },
        Some(j) => j,
    };
    let i7 = match expect_at(v, i6, "port = ") {
        None => {
            return None;
        },
        Some(j) => j,
    };
    let (port, i8) = match scan_num(v, i7, u16::MAX as u64) {
        None => {
            return None;
        },
        Some(p) => p,
    };
    let i9 = match expect_at(v, i8, "\n") {
        None => {
            return None;
        },
        Some(j) => j,
    };
    let i10 = match expect_at(v, i9, "size = ") {
        None => {
            return None;
        },
        Some(j) => j,
    };
    let (size, i11) = match scan_num(v, i10, usize::MAX as u64) {
        None => {
            return None;
        },
        Some(p) => p,
    };
    let i12 = match expect_at(v, i11, "\n") {
        None => {
            return None;
        },
        Some(j) => j,
    };
    let name = text::string_of(&name_chars);
    let base = text::string_of(&base_chars);
    Some((Snapshot { name, base, port: port as u16, size: size as usize }, i12))
}

pub open spec fn opt_prep_disks(pre: Seq<DiskV>, o: Option<(Seq<DiskV>, Seq<char>)>) -> Option<
    (Seq<DiskV>, Seq<char>),
> {
    match o {
        None => None,
        Some(p) => Some((pre + p.0, p.1)),
    }
}

pub open spec fn opt_prep_machines(pre: Seq<MachineV>, o: Option<(Seq<MachineV>, Seq<char>)>)
    -> Option<(Seq<MachineV>, Seq<char>)> {
    match o {
        None => None,
        Some(p) => Some((pre + p.0, p.1)),
    }
}

pub open spec fn opt_prep_snapshots(pre: Seq<SnapshotV>, o: Option<(Seq<SnapshotV>, Seq<char>)>)
    -> Option<(Seq<SnapshotV>, Seq<char>)> {
    match o {
        None => None,
        Some(p) => Some((pre + p.0, p.1)),
    }
}

/// Scans the run of disk records under the header `kw` at position `i`.
fn scan_disks(v: &Vec<char>, i: usize, kw: &str) -> (r: Option<(Vec<Disk>, usize)>)
    requires
        i <= v.len(),
        kw@.len() > 0,
    ensures
        match r {
            Some(p) => i <= p.1 <= v.len() && parse_disks(v@.skip(i as int), kw@) == Some(
                (disk_views(p.0@), v@.skip(p.1 as int)),
            ),
            None => parse_disks(v@.skip(i as int), kw@) is None,
        },
{
    let mut out: Vec<Disk> = Vec::new();
    let mut cur: usize = i;
    loop
        invariant
            i <= cur <= v.len(),
            kw@.len() > 0,
            parse_disks(v@.skip(i as int), kw@) == opt_prep_disks(
                disk_views(out@),
                parse_disks(v@.skip(cur as int), kw@),
            ),
        decreases v.len() - cur,
    {
        let i1 = match expect_at(v, cur, kw) {
            None => {
                proof {
                    assert(disk_views(out@) + Seq::<DiskV>::empty() =~= disk_views(out@));
                }
                return Some((out, cur));
            },
            Some(j) => j,
        };
        match scan_disk_body(v, i1) {
            None => {
                return None;
            },
            Some((d, j)) => {
                proof {
                    let inner = parse_disks(v@.skip(j as int), kw@);
                    match inner {
                        None => {},
                        Some(q) => {
                            assert(disk_views(out@) + (seq![d@] + q.0) =~= disk_views(out@).push(
                                d@,
                            ) + q.0);
                        },
                    }
                    assert(disk_views(out@).push(d@) =~= disk_views(out@.push(d)));
                }
                out.push(d);
                cur = j;
            },
        }
    }
}

/// Scans the run of machine records under the header `kw` at position
/// `i`.
fn scan_machines(v: &Vec<char>, i: usize, kw: &str) -> (r: Option<(Vec<Machine>, usize)>)
    requires
        i <= v.len(),
        kw@.len() > 0,
    ensures
        match r {
            Some(p) => i <= p.1 <= v.len() && parse_machines(v@.skip(i as int), kw@) == Some(
                (machine_views(p.0@), v@.skip(p.1 as int)),
            ),
            None => parse_machines(v@.skip(i as int), kw@) is None,
        },
{
    let mut out: Vec<Machine> = Vec::new();
    let mut cur: usize = i;
    loop
        invariant
            i <= cur <= v.len(),
            kw@.len() > 0,
            parse_machines(v@.skip(i as int), kw@) == opt_prep_machines(
                machine_views(out@),
                parse_machines(v@.skip(cur as int), kw@),
            ),
        decreases v.len() - cur,
    {
        let i1 = match expect_at(v, cur, kw) {
            None => {
                proof {
                    assert(machine_views(out@) + Seq::<MachineV>::empty() =~= machine_views(out@));
                }
                return Some((out, cur));
            },
            Some(j) => j,
        };
        match scan_machine_body(v, i1) {
            None => {
                return None;
            },
            Some((m, j)) => {
                proof {
                    let inner = parse_machines(v@.skip(j as int), kw@);
                    match inner {
                        None => {},
                        Some(q) => {
                            assert(machine_views(out@) + (seq![m@] + q.0) =~= machine_views(
                                out@,
                            ).push(m@) + q.0);
                        },
                    }
                    assert(machine_views(out@).push(m@) =~= machine_views(out@.push(m)));
                }
                out.push(m);
                cur = j;
            },
        }
    }
}

/// Scans the run of snapshot records at position `i`.
fn scan_snapshots(v: &Vec<char>, i: usize) -> (r: Option<(Vec<Snapshot>, usize)>)
    requires
        i <= v.len(),
    ensures
        match r {
            Some(p) => i <= p.1 <= v.len() && parse_snapshots(v@.skip(i as int)) == Some(
                (snapshot_views(p.0@), v@.skip(p.1 as int)),
            ),
            None => parse_snapshots(v@.skip(i as int)) is None,
        },
{
    proof {
        lemma_literals();
    }
    let mut out: Vec<Snapshot> = Vec::new();
    let mut cur: usize = i;
    loop
        invariant
            i <= cur <= v.len(),
            parse_snapshots(v@.skip(i as int)) == opt_prep_snapshots(
                snapshot_views(out@),
                parse_snapshots(v@.skip(cur as int)),
            ),
        decreases v.len() - cur,
    {
        proof {
            lemma_literals();
        }
        let i1 = match expect_at(v, cur, "[[snapshot]]\n") {
            None => {
                proof {
                    assert(snapshot_views(out@) + Seq::<SnapshotV>::empty() =~= snapshot_views(out@));
                }
                return Some((out, cur));
            },
            Some(j) => j,
        };
        match scan_snapshot_body(v, i1) {
            None => {
                return None;
            },
            Some((n, j)) => {
                proof {
                    let inner = parse_snapshots(v@.skip(j as int));
                    match inner {
                        None => {},
                        Some(q) => {
                            assert(snapshot_views(out@) + (seq![n@] + q.0) =~= snapshot_views(
                                out@,
                            ).push(n@) + q.0);
                        },
                    }
                    assert(snapshot_views(out@).push(n@) =~= snapshot_views(out@.push(n)));
                }
                out.push(n);
                cur = j;
            },
        }
    }
}

/// Parses a whole state document held in `v`.
pub fn scan_catalog(v: &Vec<char>) -> (r: Option<(Vec<Disk>, Vec<Machine>, Vec<Snapshot>)>)
    ensures
        match r {
            Some(p) => parse_doc(v@) == Some(
                (disk_views(p.0@), machine_views(p.1@), snapshot_views(p.2@)),
            ),
            None => parse_doc(v@) is None,
        },
{
    proof {
        lemma_literals();
        assert(v@.skip(0) =~= v@);
    }
    let (disks, i1) = match scan_disks(v, 0, "[[disk]]\n") {
        None => {
            return None;
        },
        Some(p) => p,
    };
    let (machines, i2) = match scan_machines(v, i1, "[[machine]]\n") {
        None => {
            return None;
        },
        Some(p) => p,
    };
    let (snapshots, i3) = match scan_snapshots(v, i2) {
        None => {
            return None;
        },
        Some(p) => p,
    };
    if i3 != v.len() {
        return None;
    }
    Some((disks, machines, snapshots))
}

/// Parses a whole library document held in `v`.
pub fn scan_library_catalog(v: &Vec<char>) -> (r: Option<
    (Vec<Disk>, Vec<Disk>, Vec<Machine>, Vec<Machine>),
>)
    ensures
        match r {
            Some(p) => parse_library_doc(v@) == Some(
                (
                    disk_views(p.0@),
                    disk_views(p.1@),
                    machine_views(p.2@),
                    machine_views(p.3@),
                ),
            ),
            None => parse_library_doc(v@) is None,
        },
{
    proof {
        lemma_literals();
        assert(v@.skip(0) =~= v@);
    }
    let (disks, i1) = match scan_disks(v, 0, "[[disk]]\n") {
        None => {
            return None;
        },
        Some(p) => p,
    };
    let (disk_backups, i2) = match scan_disks(v, i1, "[[disk_backup]]\n") {
        None => {
            return None;
        },
        Some(p) => p,
    };
    let (machines, i3) = match scan_machines(v, i2, "[[machine]]\n") {
        None => {
            return None;
        },
        Some(p) => p,
    };
    let (machine_backups, i4) = match scan_machines(v, i3, "[[machine_backup]]\n") {
        None => {
            return None;
        },
        Some(p) => p,
    };
    if i4 != v.len() {
        return None;
    }
    Some((disks, disk_backups, machines, machine_backups))
}

/// Escaping one more character appends that character's rendering.
proof fn lemma_escape_take_step(s: Seq<char>, i: int)
    requires
        0 <= i < s.len(),
    ensures
        escape(s.take(i + 1)) == escape(s.take(i)) + esc_char(s[i]),
    decreases i,
{
    let a = s.take(i + 1);
    let b = s.take(i);
    if i == 0 {
        assert(b =~= Seq::<char>::empty());
        assert(a =~= seq![s[0]]);
        assert(a.drop_first() =~= Seq::<char>::empty());
        assert(escape(a) =~= esc_char(s[0]) + escape(a.drop_first()));
        assert(esc_char(s[0]) + Seq::<char>::empty() =~= esc_char(s[0]));
        assert(escape(b) + esc_char(s[0]) =~= esc_char(s[0]));
    } else {
        lemma_escape_take_step(s.drop_first(), i - 1);
        assert(a[0] == s[0]);
        assert(b[0] == s[0]);
        assert(a.drop_first() =~= s.drop_first().take(i));
        assert(b.drop_first() =~= s.drop_first().take(i - 1));
        assert(s.drop_first()[i - 1] == s[i]);
        assert(escape(a) == esc_char(s[0]) + escape(s.drop_first().take(i)));
        assert(escape(b) == esc_char(s[0]) + escape(s.drop_first().take(i - 1)));
        assert(escape(b) + esc_char(s[i]) =~= esc_char(s[0]) + (escape(s.drop_first().take(i - 1))
            + esc_char(s[i])));
    }
}

} // verus!
