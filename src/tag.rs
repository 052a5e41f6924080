use vstd::prelude::*;
use vstd::string::StringExecFns;

verus! {

/// How an entry's index is written into its menu line.
#[derive(Clone, Copy, Debug, PartialEq, Eq, Structural)]
pub enum Scheme {
    /// The index in decimal digits.
    Decimal,
    /// The index in base three, written with three zero-width characters.
    Ternary,
}

/// The number of symbols of a scheme's alphabet.
pub open spec fn base(s: Scheme) -> nat {
    match s {
        Scheme::Decimal => 10,
        Scheme::Ternary => 3,
    }
}

/// The digit that `c` stands for in scheme `s`, if `c` is one of its symbols.
pub open spec fn digit_of(s: Scheme, c: char) -> Option<nat> {
    match s {
        Scheme::Decimal => if 48 <= (c as u32) && (c as u32) <= 57 {
            Some((c as u32 - 48) as nat)
        } else {
            None
        },
        Scheme::Ternary => if c == '\u{200B}' {
            Some(0)
        } else if c == '\u{200C}' {
            Some(1)
        } else if c == '\u{200D}' {
            Some(2)
        } else {
            None
        },
    }
}

/// The symbol that writes digit `d` in scheme `s`.
pub open spec fn symbol(s: Scheme, d: nat) -> char {
    match s {
        Scheme::Decimal => if d == 0 {
            '0'
        } else if d == 1 {
            '1'
        } else if d == 2 {
            '2'
        } else if d == 3 {
            '3'
        } else if d == 4 {
            '4'
        } else if d == 5 {
            '5'
        } else if d == 6 {
            '6'
        } else if d == 7 {
            '7'
        } else if d == 8 {
            '8'
        } else {
            '9'
        },
        Scheme::Ternary => if d == 0 {
            '\u{200B}'
        } else if d == 1 {
            '\u{200C}'
        } else {
            '\u{200D}'
        },
    }
}

/// The tag of index `i`: its digits in the scheme's base, most significant first,
/// with no leading zero symbol.
pub open spec fn tag_chars(s: Scheme, i: nat) -> Seq<char>
    decreases i,
    via tag_chars_decreases
{
    if i < base(s) {
        seq![symbol(s, i)]
    } else {
        tag_chars(s, i / base(s)).push(symbol(s, i % base(s)))
    }
}

#[via_fn]
proof fn tag_chars_decreases(s: Scheme, i: nat) {
    let b = base(s);
    if i >= b {
        assert(i / b < i) by (nonlinear_arith)
            requires
                b >= 2,
                i >= b,
        ;
    }
}

/// The number of the scheme's symbols at the start of `t`.
pub open spec fn run_len(s: Scheme, t: Seq<char>) -> nat
    decreases t.len(),
{
    if t.len() > 0 && digit_of(s, t[0]) is Some {
        1 + run_len(s, t.drop_first())
    } else {
        0
    }
}

/// The number that the symbols of `t` write, most significant first.
pub open spec fn value_of(s: Scheme, t: Seq<char>) -> nat
    decreases t.len(),
{
    if t.len() == 0 {
        0
    } else {
        value_of(s, t.drop_last()) * base(s) + match digit_of(s, t.last()) {
            Some(d) => d,
            None => 0,
        }
    }
}

/// The index tagged at the start of `t` among `n` entries: the value of the
/// leading run of symbols, where that run is not empty and its value is below `n`.
pub open spec fn decode_spec(s: Scheme, t: Seq<char>, n: nat) -> Option<nat> {
    let k = run_len(s, t);
    let v = value_of(s, t.take(k as int));
    if k > 0 && v < n {
        Some(v)
    } else {
        None
    }
}

/// `t` does not start with one of the scheme's symbols.
pub open spec fn starts_plain(s: Scheme, t: Seq<char>) -> bool {
    t.len() == 0 || digit_of(s, t[0]) is None
}

proof fn lemma_digit_of_symbol(s: Scheme, d: nat)
    requires
        d < base(s),
    ensures
        digit_of(s, symbol(s, d)) == Some(d),
{
}

proof fn lemma_run_len(s: Scheme, t: Seq<char>, j: nat)
    requires
        j <= t.len(),
        forall|k: int| 0 <= k < j ==> #[trigger] digit_of(s, t[k]) is Some,
        j == t.len() || digit_of(s, t[j as int]) is None,
    ensures
        run_len(s, t) == j,
    decreases j,
{
    if j > 0 {
        let u = t.drop_first();
        assert forall|k: int| 0 <= k < j - 1 implies #[trigger] digit_of(s, u[k]) is Some by {
            assert(u[k] == t[k + 1]);
        }
        lemma_run_len(s, u, (j - 1) as nat);
    }
}

proof fn lemma_tag_chars(s: Scheme, i: nat)
    ensures
        tag_chars(s, i).len() > 0,
        forall|k: int| 0 <= k < tag_chars(s, i).len() ==> #[trigger] digit_of(s, tag_chars(s, i)[k]) is Some,
        value_of(s, tag_chars(s, i)) == i,
    decreases i,
{
    let b = base(s);
    let t = tag_chars(s, i);
    if i < b {
        lemma_digit_of_symbol(s, i);
        assert(t.drop_last() =~= Seq::<char>::empty());
        assert(value_of(s, t.drop_last()) == 0);
        assert(t.last() == symbol(s, i));
    } else {
        assert(i / b < i) by (nonlinear_arith)
            requires
                b >= 2,
                i >= b,
        ;
        lemma_tag_chars(s, i / b);
        assert(i % b < b) by (nonlinear_arith)
            requires
                b >= 2,
        ;
        lemma_digit_of_symbol(s, i % b);
        let p = tag_chars(s, i / b);
        assert(t.drop_last() =~= p);
        assert forall|k: int| 0 <= k < t.len() implies #[trigger] digit_of(s, t[k]) is Some by {
            if k < p.len() {
                assert(t[k] == p[k]);
            }
        }
        assert(t.last() == symbol(s, i % b));
        assert(value_of(s, t) == value_of(s, p) * b + i % b);
        assert((i / b) * b + i % b == i) by (nonlinear_arith)
            requires
                b >= 2,
        ;
    }
}

/// Every character of a tag is one of the scheme's symbols, none of them white
/// space.
pub proof fn lemma_tag_symbols(s: Scheme, i: nat)
    ensures
        tag_chars(s, i).len() > 0,
        forall|k: int|
            0 <= k < tag_chars(s, i).len() ==> #[trigger] digit_of(s, tag_chars(s, i)[k]) is Some,
        forall|c: char| #[trigger] digit_of(s, c) is Some ==> !crate::text::is_ws(c),
{
    lemma_tag_chars(s, i);
}

/// A tag read back from the start of a line gives the index that it was written
/// from, whatever follows it, so long as what follows does not itself start with
/// one of the scheme's symbols.
pub proof fn lemma_tag_round_trip(s: Scheme, i: nat, n: nat, rest: Seq<char>)
    requires
        i < n,
        starts_plain(s, rest),
    ensures
        decode_spec(s, tag_chars(s, i) + rest, n) == Some(i),
{
    let t = tag_chars(s, i);
    let u = t + rest;
    lemma_tag_chars(s, i);
    assert forall|k: int| 0 <= k < t.len() implies #[trigger] digit_of(s, u[k]) is Some by {
        assert(u[k] == t[k]);
    }
    if rest.len() > 0 {
        assert(u[t.len() as int] == rest[0]);
    }
    lemma_run_len(s, u, t.len());
    assert(u.take(t.len() as int) =~= t);
}

/// Text that does not start with one of the scheme's symbols carries no tag.
pub proof fn lemma_plain_text_has_no_tag(s: Scheme, t: Seq<char>, n: nat)
    requires
        starts_plain(s, t),
    ensures
        decode_spec(s, t, n) is None,
{
    lemma_run_len(s, t, 0);
}

impl Scheme {
    /// The number of symbols of the scheme's alphabet.
    pub fn base(&self) -> (r: usize)
        ensures
            r as nat == base(*self),
            r >= 2,
    {
        match self {
            Scheme::Decimal => 10,
            Scheme::Ternary => 3,
        }
    }

    /// The separator put between a tag and a name unless another is configured:
    /// a space after a visible number, nothing after an invisible one.
    pub fn default_separator(&self) -> (r: &'static str)
        ensures
            r@ == default_separator(*self),
    {
        proof {
            reveal_strlit(" ");
            reveal_strlit("");
        }
        match self {
            Scheme::Decimal => " ",
            Scheme::Ternary => "",
        }
    }

    /// The digit that `c` stands for, if `c` is one of the scheme's symbols.
    pub fn digit(&self, c: char) -> (r: Option<usize>)
        ensures
            match r {
                Some(d) => digit_of(*self, c) == Some(d as nat),
                None => digit_of(*self, c) is None,
            },
    {
        match self {
            Scheme::Decimal => if '0' <= c && c <= '9' {
                Some((c as u32 - 48) as usize)
            } else {
                None
            },
            Scheme::Ternary => if c == '\u{200B}' {
                Some(0)
            } else if c == '\u{200C}' {
                Some(1)
            } else if c == '\u{200D}' {
                Some(2)
            } else {
                None
            },
        }
    }

    /// The symbol that writes digit `d`, as a string of one character.
    fn symbol_str(&self, d: usize) -> (r: &'static str)
        requires
            d < base(*self),
        ensures
            r@ == seq![symbol(*self, d as nat)],
    {
        match self {
            Scheme::Decimal => if d == 0 {
                proof { reveal_strlit("0"); }
                "0"
            } else if d == 1 {
                proof { reveal_strlit("1"); }
                "1"
            } else if d == 2 {
                proof { reveal_strlit("2"); }
                "2"
            } else if d == 3 {
                proof { reveal_strlit("3"); }
                "3"
            } else if d == 4 {
                proof { reveal_strlit("4"); }
                "4"
            } else if d == 5 {
                proof { reveal_strlit("5"); }
                "5"
            } else if d == 6 {
                proof { reveal_strlit("6"); }
                "6"
            } else if d == 7 {
                proof { reveal_strlit("7"); }
                "7"
            } else if d == 8 {
                proof { reveal_strlit("8"); }
                "8"
            } else {
                proof { reveal_strlit("9"); }
                "9"
            },
            Scheme::Ternary => if d == 0 {
                proof { reveal_strlit("\u{200B}"); }
                "\u{200B}"
            } else if d == 1 {
                proof { reveal_strlit("\u{200C}"); }
                "\u{200C}"
            } else {
                proof { reveal_strlit("\u{200D}"); }
                "\u{200D}"
            },
        }
    }

    /// Appends the tag of index `i` to `out`.
    pub fn push_tag(&self, out: &mut String, i: usize)
        ensures
            final(out)@ == old(out)@ + tag_chars(*self, i as nat),
        decreases i,
    {
        let b = self.base();
        let ghost before = out@;
        if i >= b {
            self.push_tag(out, i / b);
        }
        out.append(self.symbol_str(i % b));
        proof {
            if i >= b {
                assert(final(out)@ =~= before + tag_chars(*self, i as nat));
            } else {
                assert(i % b == i);
                assert(final(out)@ =~= before + tag_chars(*self, i as nat));
            }
        }
    }

    /// The tag of index `i`.
    pub fn encode(&self, i: usize) -> (r: String)
        ensures
            r@ == tag_chars(*self, i as nat),
    {
        let mut out = String::new();
        self.push_tag(&mut out, i);
        assert(out@ =~= tag_chars(*self, i as nat));
        out
    }

    /// The index tagged at the start of `t[from..to]`, among `n` entries.
    pub fn decode_range(&self, t: &Vec<char>, from: usize, to: usize, n: usize) -> (r: Option<usize>)
        requires
            from <= to <= t.len(),
        ensures
            decode_spec(*self, t@.subrange(from as int, to as int), n as nat) == match r {
                Some(v) => Some(v as nat),
                None => None,
            },
    {
        let ghost u = t@.subrange(from as int, to as int);
        let b = self.base();
        let mut j: usize = from;
        let mut v: usize = 0;
        let mut over: bool = n == 0;
        while j < to && self.digit(t[j]).is_some()
            invariant
                from <= j <= to <= t.len(),
                u == t@.subrange(from as int, to as int),
                b as nat == base(*self),
                forall|k: int| from <= k < j ==> #[trigger] digit_of(*self, t@[k]) is Some,
                !over ==> v as nat == value_of(*self, t@.subrange(from as int, j as int)) && v < n,
                over ==> value_of(*self, t@.subrange(from as int, j as int)) >= n,
            decreases to - j,
        {
            let d = match self.digit(t[j]) {
                Some(d) => d,
                None => 0,
            };
            let ghost p = t@.subrange(from as int, j as int);
            let ghost q = t@.subrange(from as int, j + 1);
            proof {
                assert(q.drop_last() =~= p);
                assert(q.last() == t@[j as int]);
                assert(value_of(*self, q) == value_of(*self, p) * b + d);
                assert(value_of(*self, p) * b >= value_of(*self, p)) by (nonlinear_arith)
                    requires
                        b >= 2,
                ;
            }
            if !over {
                match v.checked_mul(b) {
                    Some(m) => match m.checked_add(d) {
                        Some(a) => {
                            if a < n {
                                v = a;
                            } else {
                                over = true;
                            }
                        },
                        None => {
                            over = true;
                        },
                    },
                    None => {
                        over = true;
                    },
                }
            }
            j = j + 1;
        }
        proof {
            let k = (j - from) as nat;
            assert forall|i: int| 0 <= i < k implies #[trigger] digit_of(*self, u[i]) is Some by {
                assert(u[i] == t@[from + i]);
            }
            if j < to {
                assert(u[k as int] == t@[j as int]);
            }
            lemma_run_len(*self, u, k);
            assert(u.take(k as int) =~= t@.subrange(from as int, j as int));
        }
        if j > from && !over {
            Some(v)
        } else {
            None
        }
    }

    /// The index tagged at the start of `line`, among `n` entries.
    pub fn decode(&self, line: &str, n: usize) -> (r: Option<usize>)
        ensures
            decode_spec(*self, line@, n as nat) == match r {
                Some(v) => Some(v as nat),
                None => None,
            },
    {
        let t = crate::text::chars_of(line);
        let r = self.decode_range(&t, 0, t.len(), n);
        assert(t@.subrange(0, t@.len() as int) =~= line@);
        r
    }
}

/// The separator that scheme `s` uses unless another is configured.
pub open spec fn default_separator(s: Scheme) -> Seq<char> {
    match s {
        Scheme::Decimal => seq![' '],
        Scheme::Ternary => Seq::empty(),
    }
}

} // verus!
