//! Reads a captured process table. The liveness probe asks whether any
//! command line in the table references a resource's image path; stopping
//! an instance additionally extracts the process id from the first line
//! that does.

use vstd::prelude::*;

verus! {

/// `needle` occurs contiguously somewhere in `hay`.
pub open spec fn contains_sub(hay: Seq<char>, needle: Seq<char>) -> bool {
    exists|k: int|
        0 <= k && k + needle.len() <= hay.len() && #[trigger] hay.subrange(k, k + needle.len())
            == needle
}

/// A running process references the image at `path`: its text occurs in
/// the captured process table. A path that holds no newline cannot span
/// two lines of the table, so this is exactly "some command line
/// references the path".
pub open spec fn table_mentions(table: Seq<char>, path: Seq<char>) -> bool {
    contains_sub(table, path)
}

/// Decides [`contains_sub`].
pub fn contains_chars(hay: &Vec<char>, needle: &Vec<char>) -> (b: bool)
    ensures
        b == contains_sub(hay@, needle@),
{
    if needle.len() > hay.len() {
        proof {
            assert(!contains_sub(hay@, needle@));
        }
        return false;
    }
    if needle.len() == 0 {
        proof {
            assert(hay@.subrange(0, 0 + needle@.len() as int) =~= needle@);
        }
        return true;
    }
    let mut k: usize = 0;
    while k <= hay.len() - needle.len()
        invariant
            1 <= needle.len() <= hay.len(),
            k <= hay.len() - needle.len() + 1,
            forall|k0: int|
                0 <= k0 < k ==> #[trigger] hay@.subrange(k0, k0 + needle@.len() as int)
                    != needle@,
        decreases hay.len() - needle.len() + 1 - k,
    {
        let mut j: usize = 0;
        let mut hit = true;
        while j < needle.len()
            invariant
                k + needle.len() <= hay.len(),
                j <= needle.len(),
                hit ==> forall|j0: int| 0 <= j0 < j ==> hay@[k + j0] == needle@[j0],
                !hit ==> exists|j0: int|
                    0 <= j0 < needle@.len() && hay@[k + j0] != needle@[j0],
            decreases needle.len() - j,
        {
            if hay[k + j] != needle[j] {
                hit = false;
                j = needle.len();
            } else {
                j = j + 1;
            }
        }
        if hit {
            proof {
                assert(hay@.subrange(k as int, k as int + needle@.len() as int) =~= needle@);
            }
            return true;
        }
        proof {
            let j0 = choose|j0: int|
                0 <= j0 < needle@.len() && hay@[k + j0] != needle@[j0];
            assert(hay@.subrange(k as int, k as int + needle@.len() as int)[j0] == hay@[k + j0]);
        }
        k = k + 1;
    }
    proof {
        assert(!contains_sub(hay@, needle@));
    }
    false
}

/// The lines of a text: maximal newline-free runs. A text always has at
/// least one line; the terminator itself belongs to no line.
pub open spec fn lines(s: Seq<char>) -> Seq<Seq<char>>
    decreases s.len(),
{
    if s.len() == 0 {
        seq![Seq::<char>::empty()]
    } else if s[0] == '\n' {
        seq![Seq::<char>::empty()] + lines(s.drop_first())
    } else {
        let r = lines(s.drop_first());
        seq![seq![s[0]] + r[0]] + r.drop_first()
    }
}

pub proof fn lemma_lines_nonempty(s: Seq<char>)
    ensures
        lines(s).len() >= 1,
    decreases s.len(),
{
    if s.len() > 0 {
        lemma_lines_nonempty(s.drop_first());
    }
}

/// The character sequences of a vector of lines.
pub open spec fn lines_view(r: Seq<Vec<char>>) -> Seq<Seq<char>> {
    r.map_values(|l: Vec<char>| l@)
}

/// Splits a text into its lines.
pub fn split_lines(v: &Vec<char>) -> (r: Vec<Vec<char>>)
    ensures
        lines_view(r@) == lines(v@),
{
    let mut out: Vec<Vec<char>> = Vec::new();
    let mut line: Vec<char> = Vec::new();
    let mut i: usize = 0;
    proof {
        assert(v@.skip(0) =~= v@);
        lemma_lines_nonempty(v@);
        assert(Seq::<char>::empty() + lines(v@)[0] =~= lines(v@)[0]);
        assert(prepend_lines(Seq::<Seq<char>>::empty(), Seq::<char>::empty(), lines(v@)) =~= lines(
            v@,
        ));
    }
    while i < v.len()
        invariant
            i <= v.len(),
            lines(v@) == prepend_lines(lines_view(out@), line@, lines(v@.skip(i as int))),
        decreases v.len() - i,
    {
        let c = v[i];
        proof {
            assert(v@.skip(i as int)[0] == v@[i as int]);
            assert(v@.skip(i as int).drop_first() =~= v@.skip(i as int + 1));
            lemma_lines_nonempty(v@.skip(i as int + 1));
        }
        if c == '\n' {
            proof {
                lemma_prepend_lines_close(lines_view(out@), line@, lines(v@.skip(i as int + 1)));
            }
            let ghost done_old = lines_view(out@);
            let ghost cur_old = line@;
            out.push(line);
            line = Vec::new();
            proof {
                assert(lines_view(out@) =~= done_old + seq![cur_old]);
            }
        } else {
            proof {
                let inner = lines(v@.skip(i as int + 1));
                assert(lines(v@.skip(i as int)) =~= seq![seq![v@[i as int]] + inner[0]]
                    + inner.drop_first());
                lemma_prepend_lines_grow(lines_view(out@), line@, v@[i as int], inner);
            }
            line.push(c);
        }
        i = i + 1;
    }
    proof {
        assert(v@.skip(v@.len() as int) =~= Seq::<char>::empty());
        lemma_prepend_lines_final(lines_view(out@), line@);
    }
    let ghost done_old = lines_view(out@);
    let ghost cur_old = line@;
    out.push(line);
    proof {
        assert(lines_view(out@) =~= done_old + seq![cur_old]);
    }
    out
}

/// `done` lines already closed, the open line `cur`, and the lines of the
/// unread remainder, assembled into the lines of the whole text.
pub open spec fn prepend_lines(done: Seq<Seq<char>>, cur: Seq<char>, rest: Seq<Seq<char>>) -> Seq<
    Seq<char>,
> {
    if rest.len() == 0 {
        done + seq![cur]
    } else {
        done + seq![cur + rest[0]] + rest.drop_first()
    }
}

proof fn lemma_prepend_lines_close(done: Seq<Seq<char>>, cur: Seq<char>, inner: Seq<Seq<char>>)
    requires
        inner.len() >= 1,
    ensures
        prepend_lines(done, cur, seq![Seq::<char>::empty()] + inner) == prepend_lines(
            done + seq![cur],
            Seq::<char>::empty(),
            inner,
        ),
{
    let lhs_rest = seq![Seq::<char>::empty()] + inner;
    assert(lhs_rest[0] =~= Seq::<char>::empty());
    assert(cur + lhs_rest[0] =~= cur);
    assert(lhs_rest.drop_first() =~= inner);
    assert(done + seq![cur + lhs_rest[0]] + lhs_rest.drop_first() =~= (done + seq![cur]) + seq![
        Seq::<char>::empty() + inner[0],
    ] + inner.drop_first());
    assert(Seq::<char>::empty() + inner[0] =~= inner[0]);
    assert((done + seq![cur]) + seq![Seq::<char>::empty() + inner[0]] + inner.drop_first() =~= (done
        + seq![cur]) + seq![inner[0]] + inner.drop_first());
    assert(prepend_lines(done + seq![cur], Seq::<char>::empty(), inner) == (done + seq![cur])
        + seq![Seq::<char>::empty() + inner[0]] + inner.drop_first()) by {
        assert(seq![Seq::<char>::empty() + inner[0]] =~= seq![inner[0]]);
    }
}

proof fn lemma_prepend_lines_grow(
    done: Seq<Seq<char>>,
    cur: Seq<char>,
    c: char,
    inner: Seq<Seq<char>>,
)
    requires
        inner.len() >= 1,
    ensures
        prepend_lines(done, cur, seq![seq![c] + inner[0]] + inner.drop_first()) == prepend_lines(
            done,
            cur.push(c),
            inner,
        ),
{
    let lhs_rest = seq![seq![c] + inner[0]] + inner.drop_first();
    assert(lhs_rest[0] == seq![c] + inner[0]);
    assert(lhs_rest.drop_first() =~= inner.drop_first());
    assert(cur + (seq![c] + inner[0]) =~= cur.push(c) + inner[0]);
    assert(done + seq![cur + lhs_rest[0]] + lhs_rest.drop_first() =~= done + seq![
        cur.push(c) + inner[0],
    ] + inner.drop_first());
}

proof fn lemma_prepend_lines_final(done: Seq<Seq<char>>, cur: Seq<char>)
    ensures
        prepend_lines(done, cur, seq![Seq::<char>::empty()]) == done + seq![cur],
{
    let rest = seq![Seq::<char>::empty()];
    assert(rest.len() == 1);
    assert(cur + rest[0] =~= cur);
    assert(rest.drop_first() =~= Seq::<Seq<char>>::empty());
    assert(done + seq![cur + rest[0]] + rest.drop_first() =~= done + seq![cur]);
}

/// A space or a tab separates the whitespace-delimited fields of a
/// process-table line.
pub open spec fn is_ws(c: char) -> bool {
    c == ' ' || c == '\t'
}

pub open spec fn skip_ws(s: Seq<char>) -> Seq<char>
    decreases s.len(),
{
    if s.len() > 0 && is_ws(s[0]) {
        skip_ws(s.drop_first())
    } else {
        s
    }
}

pub open spec fn take_tok(s: Seq<char>) -> Seq<char>
    decreases s.len(),
{
    if s.len() > 0 && !is_ws(s[0]) {
        seq![s[0]] + take_tok(s.drop_first())
    } else {
        Seq::<char>::empty()
    }
}

pub open spec fn drop_tok(s: Seq<char>) -> Seq<char>
    decreases s.len(),
{
    if s.len() > 0 && !is_ws(s[0]) {
        drop_tok(s.drop_first())
    } else {
        s
    }
}

/// The second whitespace-delimited field of a line, when it has one: for
/// a process-table line, the process id.
pub open spec fn second_token(line: Seq<char>) -> Option<Seq<char>> {
    let a = skip_ws(line);
    let t1 = take_tok(a);
    if t1.len() == 0 {
        None
    } else {
        let b = skip_ws(drop_tok(a));
        let t2 = take_tok(b);
        if t2.len() == 0 {
            None
        } else {
            Some(t2)
        }
    }
}

/// The index of the first line that mentions `needle`.
pub open spec fn first_line_with(ls: Seq<Seq<char>>, needle: Seq<char>) -> Option<int>
    decreases ls.len(),
{
    if ls.len() == 0 {
        None
    } else if contains_sub(ls[0], needle) {
        Some(0)
    } else {
        match first_line_with(ls.drop_first(), needle) {
            None => None,
            Some(i) => Some(i + 1),
        }
    }
}

proof fn lemma_first_line_with_props(ls: Seq<Seq<char>>, needle: Seq<char>)
    ensures
        match first_line_with(ls, needle) {
            None => forall|i: int| 0 <= i < ls.len() ==> !contains_sub(#[trigger] ls[i], needle),
            Some(i) => 0 <= i < ls.len() && contains_sub(ls[i], needle) && forall|j: int|
                0 <= j < i ==> !contains_sub(#[trigger] ls[j], needle),
        },
    decreases ls.len(),
{
    if ls.len() > 0 && !contains_sub(ls[0], needle) {
        lemma_first_line_with_props(ls.drop_first(), needle);
        assert(forall|i: int| 1 <= i < ls.len() ==> ls.drop_first()[i - 1] == ls[i]);
    }
}

/// Finds the first line of `ls` that mentions `needle`.
pub fn find_line_with(ls: &Vec<Vec<char>>, needle: &Vec<char>) -> (r: Option<usize>)
    ensures
        match r {
            Some(i) => i < ls.len() && first_line_with(lines_view(ls@), needle@) == Some(i as int),
            None => first_line_with(lines_view(ls@), needle@) is None,
        },
{
    let ghost all = lines_view(ls@);
    let mut i: usize = 0;
    while i < ls.len()
        invariant
            i <= ls.len(),
            all == lines_view(ls@),
            forall|j: int| 0 <= j < i ==> !contains_sub(#[trigger] all[j], needle@),
        decreases ls.len() - i,
    {
        if contains_chars(&ls[i], needle) {
            proof {
                assert(all[i as int] == ls@[i as int]@);
                lemma_first_line_with_props(all, needle@);
                match first_line_with(all, needle@) {
                    None => {
                        assert(contains_sub(all[i as int], needle@));
                    },
                    Some(k) => {
                        if k < i {
                            assert(!contains_sub(all[k], needle@));
                        } else if k > i {
                            assert(!contains_sub(all[i as int], needle@));
                        }
                    },
                }
            }
            return Some(i);
        }
        i = i + 1;
    }
    proof {
        lemma_first_line_with_props(all, needle@);
    }
    None
}

/// Extracts the second whitespace-delimited field of `line`.
pub fn second_field(line: &Vec<char>) -> (r: Option<Vec<char>>)
    ensures
        match r {
            Some(t) => second_token(line@) == Some(t@),
            None => second_token(line@) is None,
        },
{
    let n = line.len();
    let mut i: usize = 0;
    proof {
        assert(line@.skip(0) =~= line@);
    }
    while i < n && (line[i] == ' ' || line[i] == '\t')
        invariant
            i <= n,
            n == line.len(),
            skip_ws(line@) == skip_ws(line@.skip(i as int)),
        decreases n - i,
    {
        proof {
            assert(line@.skip(i as int)[0] == line@[i as int]);
            assert(line@.skip(i as int).drop_first() =~= line@.skip(i as int + 1));
        }
        i = i + 1;
    }
    proof {
        lemma_skip_ws_fixed(line@.skip(i as int));
        assert(line@.skip(i as int).len() > 0 ==> line@.skip(i as int)[0] == line@[i as int]);
    }
    let ghost a = skip_ws(line@);
    // a == line@.skip(i)
    let start1 = i;
    let mut t1: Vec<char> = Vec::new();
    proof {
        assert(Seq::<char>::empty() + take_tok(line@.skip(start1 as int)) =~= take_tok(
            line@.skip(start1 as int),
        ));
    }
    while i < n && line[i] != ' ' && line[i] != '\t'
        invariant
            start1 <= i <= n,
            n == line.len(),
            a == line@.skip(start1 as int),
            t1@ + take_tok(line@.skip(i as int)) == take_tok(a),
            drop_tok(line@.skip(i as int)) == drop_tok(a),
            t1@.len() == i - start1,
        decreases n - i,
    {
        proof {
            assert(line@.skip(i as int)[0] == line@[i as int]);
            assert(line@.skip(i as int).drop_first() =~= line@.skip(i as int + 1));
            assert(t1@ + (seq![line@[i as int]] + take_tok(line@.skip(i as int + 1))) =~= t1@.push(
                line@[i as int],
            ) + take_tok(line@.skip(i as int + 1)));
        }
        t1.push(line[i]);
        i = i + 1;
    }
    proof {
        lemma_take_tok_fixed(line@.skip(i as int));
        assert(line@.skip(i as int).len() > 0 ==> line@.skip(i as int)[0] == line@[i as int]);
        assert(t1@ + Seq::<char>::empty() =~= t1@);
    }
    if t1.len() == 0 {
        return None;
    }
    // drop_tok(a) == line@.skip(i)
    let ghost after1 = drop_tok(a);
    let mut j: usize = i;
    while j < n && (line[j] == ' ' || line[j] == '\t')
        invariant
            i <= j <= n,
            n == line.len(),
            after1 == line@.skip(i as int),
            skip_ws(line@.skip(i as int)) == skip_ws(line@.skip(j as int)),
        decreases n - j,
    {
        proof {
            assert(line@.skip(j as int)[0] == line@[j as int]);
            assert(line@.skip(j as int).drop_first() =~= line@.skip(j as int + 1));
        }
        j = j + 1;
    }
    proof {
        lemma_skip_ws_fixed(line@.skip(j as int));
        assert(line@.skip(j as int).len() > 0 ==> line@.skip(j as int)[0] == line@[j as int]);
    }
    let ghost b = skip_ws(after1);
    // b == line@.skip(j)
    let start2 = j;
    let mut t2: Vec<char> = Vec::new();
    proof {
        assert(Seq::<char>::empty() + take_tok(line@.skip(start2 as int)) =~= take_tok(
            line@.skip(start2 as int),
        ));
    }
    while j < n && line[j] != ' ' && line[j] != '\t'
        invariant
            start2 <= j <= n,
            n == line.len(),
            b == line@.skip(start2 as int),
            t2@ + take_tok(line@.skip(j as int)) == take_tok(b),
            t2@.len() == j - start2,
        decreases n - j,
    {
        proof {
            assert(line@.skip(j as int)[0] == line@[j as int]);
            assert(line@.skip(j as int).drop_first() =~= line@.skip(j as int + 1));
            assert(t2@ + (seq![line@[j as int]] + take_tok(line@.skip(j as int + 1))) =~= t2@.push(
                line@[j as int],
            ) + take_tok(line@.skip(j as int + 1)));
        }
        t2.push(line[j]);
        j = j + 1;
    }
    proof {
        lemma_take_tok_fixed(line@.skip(j as int));
        assert(line@.skip(j as int).len() > 0 ==> line@.skip(j as int)[0] == line@[j as int]);
        assert(t2@ + Seq::<char>::empty() =~= t2@);
    }
    if t2.len() == 0 {
        return None;
    }
    Some(t2)
}

proof fn lemma_skip_ws_fixed(s: Seq<char>)
    requires
        s.len() == 0 || !is_ws(s[0]),
    ensures
        skip_ws(s) == s,
{
}

proof fn lemma_take_tok_fixed(s: Seq<char>)
    requires
        s.len() == 0 || is_ws(s[0]),
    ensures
        take_tok(s) == Seq::<char>::empty(),
        drop_tok(s) == s,
{
}

} // verus!
