//! Reading the user's line-based answers: whitespace-separated tokens,
//! decimal integers, the yes/no marker, and the mode selector.
//!
//! Every function here works on the raw bytes of a line and is specified
//! against a small tokenizer model: a line is split on ASCII whitespace,
//! and a token parses as an integer exactly when it is an optional `+`
//! followed by one or more decimal digits whose value fits the machine.

use vstd::prelude::*;

use crate::domain::IgnoreSet;

verus! {

/// ASCII whitespace: space, tab, line feed, vertical tab, form feed,
/// carriage return.
pub open spec fn is_space(b: u8) -> bool {
    b == 32 || (9 <= b <= 13)
}

/// ASCII decimal digit.
pub open spec fn is_digit(b: u8) -> bool {
    48 <= b <= 57
}

/// ASCII upper-case letters folded to lower case; everything else kept.
pub open spec fn to_lower(b: u8) -> u8 {
    if 65 <= b <= 90 {
        (b + 32) as u8
    } else {
        b
    }
}

/// One step of the tokenizer: the tokens finished so far and the token
/// being built, advanced by one byte.
pub open spec fn scan_step(st: (Seq<Seq<u8>>, Seq<u8>), b: u8) -> (Seq<Seq<u8>>, Seq<u8>) {
    if is_space(b) {
        if st.1.len() > 0 {
            (st.0.push(st.1), Seq::<u8>::empty())
        } else {
            st
        }
    } else {
        (st.0, st.1.push(b))
    }
}

/// The tokenizer run over a whole byte sequence.
pub open spec fn scan(s: Seq<u8>) -> (Seq<Seq<u8>>, Seq<u8>)
    decreases s.len(),
{
    if s.len() == 0 {
        (Seq::<Seq<u8>>::empty(), Seq::<u8>::empty())
    } else {
        scan_step(scan(s.drop_last()), s.last())
    }
}

/// The maximal runs of non-whitespace bytes, in order.
pub open spec fn tokens(s: Seq<u8>) -> Seq<Seq<u8>> {
    let st = scan(s);
    if st.1.len() > 0 {
        st.0.push(st.1)
    } else {
        st.0
    }
}

/// The views of a list of byte vectors.
pub open spec fn token_views(ts: Seq<Vec<u8>>) -> Seq<Seq<u8>> {
    ts.map_values(|t: Vec<u8>| t@)
}

/// The value of a run of decimal digits, most significant first.
pub open spec fn digits_val(d: Seq<u8>) -> int
    decreases d.len(),
{
    if d.len() == 0 {
        0
    } else {
        digits_val(d.drop_last()) * 10 + (d.last() - 48)
    }
}

/// The digits of a token: an optional leading `+` is not part of them.
pub open spec fn numeric_part(t: Seq<u8>) -> Seq<u8> {
    if t.len() > 0 && t[0] == 43 {
        t.drop_first()
    } else {
        t
    }
}

/// Whether the token is an integer literal: at least one digit, and
/// nothing besides digits after the optional sign.
pub open spec fn is_numeric(t: Seq<u8>) -> bool {
    let d = numeric_part(t);
    d.len() > 0 && (forall|i: int| 0 <= i < d.len() ==> is_digit(d[i]))
}

/// The integer a numeric token denotes.
pub open spec fn token_value(t: Seq<u8>) -> int {
    digits_val(numeric_part(t))
}

/// Whether the token parses as a `usize`: numeric and within the machine's
/// range.
pub open spec fn parses_to_usize(t: Seq<u8>) -> bool {
    is_numeric(t) && token_value(t) <= usize::MAX
}

/// A run of digits has a non-negative value.
proof fn lemma_digits_val_nonneg(d: Seq<u8>)
    requires
        forall|i: int| 0 <= i < d.len() ==> is_digit(d[i]),
    ensures
        digits_val(d) >= 0,
    decreases d.len(),
{
    if d.len() > 0 {
        assert(forall|i: int|
            0 <= i < d.drop_last().len() ==> is_digit(d.drop_last()[i]));
        lemma_digits_val_nonneg(d.drop_last());
    }
}

/// A prefix of a run of digits denotes no more than the whole run.
proof fn lemma_digits_val_prefix(d: Seq<u8>, i: int)
    requires
        forall|k: int| 0 <= k < d.len() ==> is_digit(d[k]),
        0 <= i <= d.len(),
    ensures
        digits_val(d.take(i)) <= digits_val(d),
    decreases d.len(),
{
    if i == d.len() {
        assert(d.take(i) =~= d);
    } else {
        let dl = d.drop_last();
        assert(forall|k: int| 0 <= k < dl.len() ==> is_digit(dl[k]));
        lemma_digits_val_prefix(dl, i);
        assert(d.take(i) =~= dl.take(i));
        lemma_digits_val_nonneg(dl);
    }
}

/// Parse one token as an integer, exactly as the machine's decimal parser
/// accepts it: an optional leading `+`, then one or more digits, value in
/// range.
pub fn parse_usize_token(t: &Vec<u8>) -> (r: Option<usize>)
    ensures
        match r {
            Some(v) => parses_to_usize(t@) && v == token_value(t@),
            None => !parses_to_usize(t@),
        },
{
    let mut start: usize = 0;
    if t.len() > 0 && t[0] == 43 {
        start = 1;
    }
    let ghost d = numeric_part(t@);
    proof {
        assert(d =~= t@.subrange(start as int, t@.len() as int));
    }
    if t.len() == start {
        return None;
    }
    let mut i: usize = start;
    let mut val: usize = 0;
    proof {
        assert(t@.subrange(start as int, start as int) =~= Seq::<u8>::empty());
    }
    while i < t.len()
        invariant
            start <= i <= t@.len(),
            d == numeric_part(t@),
            d =~= t@.subrange(start as int, t@.len() as int),
            forall|k: int| start <= k < i ==> is_digit(t@[k]),
            val == digits_val(t@.subrange(start as int, i as int)),
        decreases t@.len() - i,
    {
        let b = t[i];
        if !(48 <= b && b <= 57) {
            proof {
                assert(!is_digit(d[i - start]));
            }
            return None;
        }
        let dd: usize = (b - 48) as usize;
        let next = match val.checked_mul(10) {
            Some(m) => m.checked_add(dd),
            None => None,
        };
        proof {
            let pre = t@.subrange(start as int, i as int);
            let ext = t@.subrange(start as int, i + 1);
            assert(ext.drop_last() =~= pre);
            assert(ext.last() == t@[i as int]);
        }
        match next {
            Some(v) => {
                val = v;
            },
            None => {
                proof {
                    if parses_to_usize(t@) {
                        lemma_digits_val_prefix(d, i + 1 - start);
                        assert(d.take(i + 1 - start) =~= t@.subrange(start as int, i + 1));
                    }
                }
                return None;
            },
        }
        i = i + 1;
    }
    proof {
        assert(t@.subrange(start as int, i as int) =~= d);
    }
    Some(val)
}

/// Split a line into its whitespace-separated tokens.
pub fn split_tokens(s: &Vec<u8>) -> (r: Vec<Vec<u8>>)
    ensures
        token_views(r@) == tokens(s@),
{
    let mut out: Vec<Vec<u8>> = Vec::new();
    let mut cur: Vec<u8> = Vec::new();
    let mut i: usize = 0;
    proof {
        assert(s@.take(0) =~= Seq::<u8>::empty());
        assert(token_views(out@) =~= Seq::<Seq<u8>>::empty());
    }
    while i < s.len()
        invariant
            i <= s@.len(),
            token_views(out@) == scan(s@.take(i as int)).0,
            cur@ == scan(s@.take(i as int)).1,
        decreases s@.len() - i,
    {
        let ghost pre_state = (token_views(out@), cur@);
        let b = s[i];
        if b == 32 || (9 <= b && b <= 13) {
            if cur.len() > 0 {
                let ghost old_out = out@;
                let finished = cur;
                cur = Vec::new();
                out.push(finished);
                proof {
                    assert(token_views(out@) =~= token_views(old_out).push(finished@));
                }
            }
        } else {
            cur.push(b);
        }
        proof {
            let step = s@.take(i + 1);
            assert(step.drop_last() =~= s@.take(i as int));
            assert(step.last() == s@[i as int]);
            assert(scan(step) == scan_step(scan(s@.take(i as int)), s@[i as int]));
        }
        i = i + 1;
    }
    proof {
        assert(s@.take(i as int) =~= s@);
    }
    if cur.len() > 0 {
        let ghost old_out = out@;
        let last = cur;
        out.push(last);
        proof {
            assert(token_views(out@) =~= token_views(old_out).push(last@));
        }
    }
    out
}

/// The set of values the numeric tokens denote.
pub open spec fn ignore_values(ts: Seq<Seq<u8>>) -> Set<usize>
    decreases ts.len(),
{
    if ts.len() == 0 {
        Set::<usize>::empty()
    } else {
        let rest = ignore_values(ts.drop_last());
        if parses_to_usize(ts.last()) {
            rest.insert(token_value(ts.last()) as usize)
        } else {
            rest
        }
    }
}

/// How many tokens fail to parse as integers.
pub open spec fn bad_token_count(ts: Seq<Seq<u8>>) -> int
    decreases ts.len(),
{
    if ts.len() == 0 {
        0
    } else {
        bad_token_count(ts.drop_last()) + if parses_to_usize(ts.last()) {
            0int
        } else {
            1int
        }
    }
}

/// Read an ignore list: every numeric token joins the set, every other
/// token is dropped and counted so a warning can be shown for it.
pub fn parse_ignore_list(input: &Vec<u8>) -> (r: (IgnoreSet, usize))
    ensures
        r.0@ == ignore_values(tokens(input@)),
        r.1 == bad_token_count(tokens(input@)),
{
    let toks = split_tokens(input);
    let ghost tv = token_views(toks@);
    let mut set = IgnoreSet::new();
    let mut bad: usize = 0;
    let mut i: usize = 0;
    proof {
        assert(tv.take(0) =~= Seq::<Seq<u8>>::empty());
    }
    while i < toks.len()
        invariant
            i <= toks@.len(),
            tv == token_views(toks@),
            set@ == ignore_values(tv.take(i as int)),
            bad <= i,
            bad == bad_token_count(tv.take(i as int)),
        decreases toks@.len() - i,
    {
        match parse_usize_token(&toks[i]) {
            Some(v) => {
                set.insert(v);
            },
            None => {
                bad = bad + 1;
            },
        }
        proof {
            let step = tv.take(i + 1);
            assert(step.drop_last() =~= tv.take(i as int));
            assert(step.last() == toks@[i as int]@);
        }
        i = i + 1;
    }
    proof {
        assert(tv.take(i as int) =~= tv);
    }
    (set, bad)
}

/// What a line denotes when a single scalar is asked for: exactly one
/// token, parsing as an integer between 1 and the input bound.
pub open spec fn scalar_value(s: Seq<u8>) -> Option<usize> {
    let ts = tokens(s);
    if ts.len() == 1 && parses_to_usize(ts[0]) && 1 <= token_value(ts[0])
        <= crate::MAX_INPUT {
        Some(token_value(ts[0]) as usize)
    } else {
        None
    }
}

/// Read one scalar input (a bound or a count). The line must hold one
/// integer and nothing else, and the integer must lie between 1 and the
/// input bound; anything else asks for another try.
pub fn parse_scalar(input: &Vec<u8>) -> (r: Option<usize>)
    ensures
        r == scalar_value(input@),
{
    let toks = split_tokens(input);
    if toks.len() != 1 {
        return None;
    }
    match parse_usize_token(&toks[0]) {
        Some(v) => {
            if crate::scalar_in_range(v) {
                Some(v)
            } else {
                None
            }
        },
        None => None,
    }
}

/// The first byte of a line that is not whitespace, if any.
pub open spec fn first_non_space(s: Seq<u8>) -> Option<u8>
    decreases s.len(),
{
    if s.len() == 0 {
        None
    } else if is_space(s[0]) {
        first_non_space(s.drop_first())
    } else {
        Some(s[0])
    }
}

/// What a yes/no answer denotes: decided by the first non-whitespace
/// byte, case-insensitively; anything else asks for another try.
pub open spec fn yes_no_value(s: Seq<u8>) -> Option<bool> {
    match first_non_space(s) {
        Option::None => Option::None,
        Option::Some(b) => {
            if to_lower(b) == 121 {
                Option::Some(true)
            } else if to_lower(b) == 110 {
                Option::Some(false)
            } else {
                Option::None
            }
        },
    }
}

/// Read a yes/no answer.
pub fn parse_yes_no(input: &Vec<u8>) -> (r: Option<bool>)
    ensures
        r == yes_no_value(input@),
{
    let mut i: usize = 0;
    proof {
        assert(input@.skip(0) =~= input@);
    }
    while i < input.len()
        invariant
            i <= input@.len(),
            first_non_space(input@) == first_non_space(input@.skip(i as int)),
        decreases input@.len() - i,
    {
        let b = input[i];
        if b == 32 || (9 <= b && b <= 13) {
            proof {
                assert(input@.skip(i as int).drop_first() =~= input@.skip(i + 1));
            }
            i = i + 1;
        } else {
            proof {
                assert(first_non_space(input@) == Some(b));
            }
            let low = if 65 <= b && b <= 90 {
                b + 32
            } else {
                b
            };
            if low == 121 {
                return Some(true);
            } else if low == 110 {
                return Some(false);
            } else {
                return None;
            }
        }
    }
    proof {
        assert(input@.skip(i as int) =~= Seq::<u8>::empty());
    }
    None
}

/// How the inputs arrive: prompted for on the console, or supplied up
/// front as parameters.
#[derive(Clone, Copy, PartialEq, Eq, Debug)]
pub enum Mode {
    Interactive,
    Preset,
}

/// Decode the mode selector. Only 0 (interactive) and 1 (preset) are
/// recognised; any other value is an unrecoverable configuration.
pub fn parse_mode(selector: u8) -> (r: Option<Mode>)
    ensures
        selector == 0 ==> r == Some(Mode::Interactive),
        selector == 1 ==> r == Some(Mode::Preset),
        selector > 1 ==> r == Option::<Mode>::None,
{
    if selector == 0 {
        Some(Mode::Interactive)
    } else if selector == 1 {
        Some(Mode::Preset)
    } else {
        None
    }
}

} // verus!
