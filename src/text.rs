use vstd::prelude::*;

verus! {

/// The characters of `s`, in order.
pub fn chars_of(s: &str) -> (r: Vec<char>)
    ensures
        r@ == s@,
{
    let mut out: Vec<char> = Vec::new();
    for c in it: s.chars()
        invariant
            out@ == it.seq().take(it.index() as int),
    {
        out.push(c);
    }
    out
}

/// `c` is a white-space character in Unicode's sense.
pub open spec fn is_ws(c: char) -> bool {
    let u = c as u32;
    (9 <= u && u <= 13) || u == 32 || u == 0x85 || u == 0xA0 || u == 0x1680 || (0x2000 <= u
        && u <= 0x200A) || u == 0x2028 || u == 0x2029 || u == 0x202F || u == 0x205F || u
        == 0x3000
}

/// Whether `c` is white space.
pub fn is_whitespace(c: char) -> (r: bool)
    ensures
        r == is_ws(c),
{
    let u = c as u32;
    (9 <= u && u <= 13) || u == 32 || u == 0x85 || u == 0xA0 || u == 0x1680 || (0x2000 <= u
        && u <= 0x200A) || u == 0x2028 || u == 0x2029 || u == 0x202F || u == 0x205F || u
        == 0x3000
}

/// `t` without its leading white space.
pub open spec fn trim_start(t: Seq<char>) -> Seq<char>
    decreases t.len(),
{
    if t.len() > 0 && is_ws(t[0]) {
        trim_start(t.drop_first())
    } else {
        t
    }
}

/// `t` without its trailing white space.
pub open spec fn trim_end(t: Seq<char>) -> Seq<char>
    decreases t.len(),
{
    if t.len() > 0 && is_ws(t.last()) {
        trim_end(t.drop_last())
    } else {
        t
    }
}

/// `t` without white space at either end.
pub open spec fn trim(t: Seq<char>) -> Seq<char> {
    trim_end(trim_start(t))
}

/// The bounds of `t[from..to]` with white space at either end left out.
pub fn trim_bounds(t: &Vec<char>, from: usize, to: usize) -> (r: (usize, usize))
    requires
        from <= to <= t.len(),
    ensures
        from <= r.0 <= r.1 <= to,
        t@.subrange(r.0 as int, r.1 as int) == trim(t@.subrange(from as int, to as int)),
{
    let mut a: usize = from;
    while a < to && is_whitespace(t[a])
        invariant
            from <= a <= to <= t.len(),
            trim_start(t@.subrange(from as int, to as int)) == trim_start(
                t@.subrange(a as int, to as int),
            ),
        decreases to - a,
    {
        assert(t@.subrange(a as int, to as int).drop_first() =~= t@.subrange(a + 1, to as int));
        a = a + 1;
    }
    let mut b: usize = to;
    while b > a && is_whitespace(t[b - 1])
        invariant
            from <= a <= b <= to <= t.len(),
            trim_start(t@.subrange(from as int, to as int)) == t@.subrange(a as int, to as int),
            trim(t@.subrange(from as int, to as int)) == trim_end(
                t@.subrange(a as int, b as int),
            ),
        decreases b - a,
    {
        assert(t@.subrange(a as int, b as int).drop_last() =~= t@.subrange(a as int, b - 1));
        b = b - 1;
    }
    (a, b)
}

/// Keeps `line`, trimmed, after `done` unless it is blank.
pub open spec fn keep_line(done: Seq<Seq<char>>, line: Seq<char>) -> Seq<Seq<char>> {
    if trim(line).len() > 0 {
        done.push(trim(line))
    } else {
        done
    }
}

/// The lines of `t` kept so far, and the line still open at its end.
pub open spec fn lines_acc(t: Seq<char>) -> (Seq<Seq<char>>, Seq<char>)
    decreases t.len(),
{
    if t.len() == 0 {
        (Seq::empty(), Seq::empty())
    } else {
        let p = lines_acc(t.drop_last());
        if t.last() == '\n' {
            (keep_line(p.0, p.1), Seq::empty())
        } else {
            (p.0, p.1.push(t.last()))
        }
    }
}

/// The newline-separated lines of `t`, each trimmed, blank ones left out.
pub open spec fn nonblank_lines(t: Seq<char>) -> Seq<Seq<char>> {
    keep_line(lines_acc(t).0, lines_acc(t).1)
}

/// Text without a newline is one open line.
pub proof fn lemma_lines_acc_single(t: Seq<char>)
    requires
        forall|k: int| 0 <= k < t.len() ==> #[trigger] t[k] != '\n',
    ensures
        lines_acc(t) == (Seq::<Seq<char>>::empty(), t),
    decreases t.len(),
{
    if t.len() > 0 {
        let p = t.drop_last();
        assert forall|k: int| 0 <= k < p.len() implies #[trigger] p[k] != '\n' by {
            assert(p[k] == t[k]);
        }
        lemma_lines_acc_single(p);
        assert(p.push(t.last()) =~= t);
    }
}

/// Text without a newline, followed by one, is a single line, unless blank.
pub proof fn lemma_single_line(t: Seq<char>)
    requires
        forall|k: int| 0 <= k < t.len() ==> #[trigger] t[k] != '\n',
    ensures
        nonblank_lines(t.push('\n')) == keep_line(Seq::empty(), t),
{
    let u = t.push('\n');
    lemma_lines_acc_single(t);
    assert(u.drop_last() =~= t);
    assert(trim(Seq::<char>::empty()) =~= Seq::<char>::empty());
}

/// Trailing white space of `a + b`, where `a` does not end in white space, lies
/// in `b`.
pub proof fn lemma_trim_end_concat(a: Seq<char>, b: Seq<char>)
    requires
        a.len() > 0,
        !is_ws(a.last()),
    ensures
        trim_end(a + b) == a + trim_end(b),
    decreases b.len(),
{
    if b.len() > 0 {
        assert((a + b).last() == b.last());
        assert((a + b).drop_last() =~= a + b.drop_last());
        lemma_trim_end_concat(a, b.drop_last());
    } else {
        assert(a + b =~= a);
        assert((a + b).last() == a.last());
    }
}

/// What `trim_end` leaves is a prefix.
pub proof fn lemma_trim_end_prefix(t: Seq<char>)
    ensures
        trim_end(t).len() <= t.len(),
        trim_end(t) == t.take(trim_end(t).len() as int),
    decreases t.len(),
{
    if t.len() > 0 && is_ws(t.last()) {
        lemma_trim_end_prefix(t.drop_last());
        assert(t.drop_last().take(trim_end(t).len() as int) =~= t.take(trim_end(t).len() as int));
    } else {
        assert(t.take(t.len() as int) =~= t);
    }
}

/// The characters of each of `v`.
pub open spec fn strings_view(v: Seq<String>) -> Seq<Seq<char>> {
    v.map_values(|a: String| a@)
}

} // verus!
