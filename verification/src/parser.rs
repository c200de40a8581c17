//! Tokenization of command lines and parsing of the multiplier token.
//!
//! A command line is split on ASCII whitespace into tokens; the multiplier
//! token is a decimal integer with an optional sign that must fit a 64-bit
//! signed machine word.

use vstd::prelude::*;

verus! {

/// The separators of the command protocol: ASCII whitespace.
pub open spec fn is_sep(c: char) -> bool {
    c == ' ' || c == '\t' || c == '\n' || c == '\r' || c == '\u{c}'
}

/// Runtime test for a separator.
fn is_sep_exec(c: char) -> (b: bool)
    ensures
        b == is_sep(c),
{
    c == ' ' || c == '\t' || c == '\n' || c == '\r' || c == '\u{c}'
}

/// Tokens of `s` with `cur` as the partially read token: helper shape for
/// `split_ws`, consuming one character at a time.
pub open spec fn split_ws_acc(s: Seq<char>, cur: Seq<char>) -> Seq<Seq<char>>
    decreases s.len(),
{
    if s.len() == 0 {
        if cur.len() == 0 {
            Seq::empty()
        } else {
            seq![cur]
        }
    } else if is_sep(s[0]) {
        if cur.len() == 0 {
            split_ws_acc(s.drop_first(), Seq::empty())
        } else {
            seq![cur] + split_ws_acc(s.drop_first(), Seq::empty())
        }
    } else {
        split_ws_acc(s.drop_first(), cur.push(s[0]))
    }
}

/// The tokens of a line: maximal runs of non-separator characters, in
/// order.
pub open spec fn split_ws(s: Seq<char>) -> Seq<Seq<char>> {
    split_ws_acc(s, Seq::empty())
}

/// Reading a full token: the accumulator run `cur + s.take(t)` comes out as
/// one token once a separator or the end of input follows it.
proof fn lemma_acc_token(s: Seq<char>, cur: Seq<char>, t: int)
    requires
        0 <= t <= s.len(),
        forall|j: int| 0 <= j < t ==> !is_sep(s[j]),
        t == s.len() || is_sep(s[t]),
        cur.len() + t > 0,
    ensures
        split_ws_acc(s, cur) == seq![cur + s.take(t)] + split_ws_acc(s.skip(t), Seq::empty()),
    decreases t,
{
    if t == 0 {
        assert(cur + s.take(0) =~= cur);
        assert(s.skip(0) =~= s);
        if s.len() == 0 {
            assert(split_ws_acc(s, cur) =~= seq![cur] + split_ws_acc(s, Seq::empty()));
        } else {
            assert(is_sep(s[0]));
        }
    } else {
        assert(!is_sep(s[0]));
        let s1 = s.drop_first();
        let cur1 = cur.push(s[0]);
        assert(forall|j: int| 0 <= j < t - 1 ==> !is_sep(s1[j]));
        lemma_acc_token(s1, cur1, t - 1);
        assert(cur1 + s1.take(t - 1) =~= cur + s.take(t));
        assert(s1.skip(t - 1) =~= s.skip(t));
    }
}

/// Split a line on ASCII whitespace.
pub fn tokenize(line: &str) -> (tokens: Vec<String>)
    ensures
        tokens.deep_view() == split_ws(line@),
{
    let n = line.unicode_len();
    let mut tokens: Vec<String> = Vec::new();
    let mut i: usize = 0;
    proof {
        assert(line@.skip(0) =~= line@);
        assert(tokens.deep_view() =~= Seq::<Seq<char>>::empty());
        assert(Seq::<Seq<char>>::empty() + split_ws_acc(line@, Seq::empty())
            =~= split_ws_acc(line@, Seq::empty()));
    }
    while i < n
        invariant
            n == line@.len(),
            i <= n,
            tokens.deep_view() + split_ws_acc(line@.skip(i as int), Seq::empty())
                == split_ws(line@),
        decreases n - i,
    {
        let c = line.get_char(i);
        if is_sep_exec(c) {
            proof {
                assert(line@.skip(i as int).drop_first() =~= line@.skip(i + 1));
            }
            i += 1;
        } else {
            let start = i;
            i += 1;
            while i < n && !is_sep_exec(line.get_char(i))
                invariant
                    n == line@.len(),
                    start < i <= n,
                    forall|j: int| start <= j < i ==> !is_sep(line@[j]),
                decreases n - i,
            {
                i += 1;
            }
            let tok = line.substring_char(start, i).to_owned();
            let ghost pre = tokens.deep_view();
            tokens.push(tok);
            proof {
                let rest = line@.skip(start as int);
                let t = i - start;
                assert forall|j: int| 0 <= j < t implies !is_sep(rest[j]) by {
                    assert(rest[j] == line@[start + j]);
                }
                lemma_acc_token(rest, Seq::empty(), t as int);
                assert(Seq::<char>::empty() + rest.take(t as int) =~= tok@);
                assert(rest.skip(t as int) =~= line@.skip(i as int));
                assert(tokens.deep_view() =~= pre.push(tok@));
                assert(pre.push(tok@) + split_ws_acc(line@.skip(i as int), Seq::empty())
                    =~= pre + (seq![tok@] + split_ws_acc(line@.skip(i as int), Seq::empty())));
            }
        }
    }
    proof {
        assert(line@.skip(n as int) =~= Seq::<char>::empty());
        assert(tokens.deep_view() + split_ws_acc(Seq::<char>::empty(), Seq::empty())
            =~= tokens.deep_view());
    }
    tokens
}

/// A decimal digit.
pub open spec fn is_digit(c: char) -> bool {
    48 <= c as u32 <= 57
}

/// Every character is a decimal digit.
pub open spec fn all_digits(s: Seq<char>) -> bool {
    forall|i: int| 0 <= i < s.len() ==> is_digit(s[i])
}

/// The number the digit string denotes, most significant digit first.
pub open spec fn digits_val(s: Seq<char>) -> int
    decreases s.len(),
{
    if s.len() == 0 {
        0
    } else {
        digits_val(s.drop_last()) * 10 + (s.last() as u32 - 48)
    }
}

/// The token with a leading `+` or `-` stripped.
pub open spec fn digits_of(s: Seq<char>) -> Seq<char> {
    if s.len() > 0 && (s[0] == '+' || s[0] == '-') {
        s.drop_first()
    } else {
        s
    }
}

/// The signed number the token denotes.
pub open spec fn signed_val(s: Seq<char>) -> int {
    if s.len() > 0 && s[0] == '-' {
        -digits_val(digits_of(s))
    } else {
        digits_val(digits_of(s))
    }
}

/// A well-formed multiplier token: an optional sign, at least one digit,
/// nothing else, and a value that fits a 64-bit signed word.
pub open spec fn int_token_valid(s: Seq<char>) -> bool {
    &&& digits_of(s).len() > 0
    &&& all_digits(digits_of(s))
    &&& -0x8000_0000_0000_0000 <= signed_val(s) <= 0x7fff_ffff_ffff_ffff
}

/// A digit string denotes a non-negative number.
proof fn lemma_digits_val_nonneg(s: Seq<char>)
    requires
        all_digits(s),
    ensures
        digits_val(s) >= 0,
    decreases s.len(),
{
    if s.len() > 0 {
        assert(all_digits(s.drop_last()));
        lemma_digits_val_nonneg(s.drop_last());
    }
}

/// Extending a digit string never shrinks its value.
proof fn lemma_digits_val_prefix(s: Seq<char>, k: int)
    requires
        all_digits(s),
        0 <= k <= s.len(),
    ensures
        digits_val(s.take(k)) <= digits_val(s),
    decreases s.len() - k,
{
    if k == s.len() {
        assert(s.take(k) =~= s);
    } else {
        lemma_digits_val_prefix(s, k + 1);
        let p = s.take(k + 1);
        assert(p.drop_last() =~= s.take(k));
        assert(all_digits(s.take(k)));
        lemma_digits_val_nonneg(s.take(k));
        assert(digits_val(p) == digits_val(s.take(k)) * 10 + (p.last() as u32 - 48));
        assert(digits_val(s.take(k)) * 10 >= digits_val(s.take(k)));
    }
}

/// Parse a multiplier token: `Some` exactly on well-formed tokens, with the
/// value the token denotes.
pub fn parse_i64(tok: &str) -> (r: Option<i64>)
    ensures
        int_token_valid(tok@) ==> (r matches Some(v) && v as int == signed_val(tok@)),
        !int_token_valid(tok@) ==> r is None,
{
    let n = tok.unicode_len();
    let mut i: usize = 0;
    let mut neg = false;
    if n > 0 {
        let c = tok.get_char(0);
        if c == '+' {
            i = 1;
        } else if c == '-' {
            neg = true;
            i = 1;
        }
    }
    if i == n {
        // no digits at all
        return None;
    }
    let ghost ds = digits_of(tok@);
    proof {
        assert(ds =~= tok@.skip(i as int));
    }
    let mut acc: u64 = 0;
    let mut j = i;
    while j < n
        invariant
            n == tok@.len(),
            i <= j <= n,
            i < n,
            ds == digits_of(tok@),
            ds == tok@.skip(i as int),
            neg <==> (tok@.len() > 0 && tok@[0] == '-'),
            all_digits(ds.take(j - i)),
            acc == digits_val(ds.take(j - i)),
        decreases n - j,
    {
        let c = tok.get_char(j);
        let d = c as u32;
        if d < 48 || d > 57 {
            proof {
                assert(ds[j - i] == tok@[j as int]);
                assert(!is_digit(ds[j - i]));
                assert(!all_digits(ds));
            }
            return None;
        }
        let dv = (d - 48) as u64;
        if acc > (u64::MAX - dv) / 10 {
            // the value can no longer fit: every further digit only grows it
            proof {
                let p = ds.take(j - i + 1);
                assert(p.drop_last() =~= ds.take(j - i));
                assert(p.last() == tok@[j as int]);
                assert(digits_val(p) == acc * 10 + dv) by {
                    assert(ds[j - i] == tok@[j as int]);
                };
                assert(acc * 10 + dv > u64::MAX) by (nonlinear_arith)
                    requires
                        acc > (u64::MAX - dv) / 10,
                        dv <= 9,
                ;
                if int_token_valid(tok@) {
                    lemma_digits_val_prefix(ds, j - i + 1);
                    lemma_digits_val_nonneg(ds);
                    assert(digits_val(ds) >= digits_val(p));
                    assert(false);
                }
            }
            return None;
        }
        acc = acc * 10 + dv;
        proof {
            let p = ds.take(j - i + 1);
            assert(p.drop_last() =~= ds.take(j - i));
            assert(ds[j - i] == tok@[j as int]);
            assert(p.last() == tok@[j as int]);
            assert(is_digit(ds[j - i]));
            assert(all_digits(p));
        }
        j += 1;
    }
    proof {
        assert(ds.take(n - i) =~= ds);
        assert(all_digits(ds) && ds.len() > 0);
        lemma_digits_val_nonneg(ds);
    }
    if neg {
        if acc > 9223372036854775808 {
            return None;
        } else if acc == 9223372036854775808 {
            return Some(i64::MIN);
        }
        Some(-(acc as i64))
    } else {
        if acc > 9223372036854775807 {
            return None;
        }
        Some(acc as i64)
    }
}

} // verus!
