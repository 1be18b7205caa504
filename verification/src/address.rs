//! Hierarchical addresses in the ternary subdivision tree.
//!
//! An address is the path of branch indices from the genesis region down to
//! a node; its text form is the indices in decimal, joined by `.`, and the
//! empty string is the root.

use vstd::prelude::*;
use crate::errors::TriangleError;

verus! {

/// The address of a node of the subdivision tree: a path of branch indices.
#[derive(Debug, Clone, Hash)]
pub struct TriangleAddress {
    path: Vec<u8>,
}

impl View for TriangleAddress {
    type V = Seq<u8>;

    closed spec fn view(&self) -> Seq<u8> {
        self.path@
    }
}

impl TriangleAddress {
    pub fn new(path: Vec<u8>) -> (r: TriangleAddress)
        ensures
            r@ == path@,
    {
        TriangleAddress { path }
    }

    /// The root of the tree: the empty path.
    pub fn root() -> (r: TriangleAddress)
        ensures
            r@ == Seq::<u8>::empty(),
    {
        let r = TriangleAddress { path: Vec::new() };
        proof {
            assert(r@ =~= Seq::<u8>::empty());
        }
        r
    }

    /// The address of the `index`-th child; branch indices are 0, 1 or 2.
    pub fn append(&self, index: u8) -> (r: TriangleAddress)
        requires
            index < 3,
        ensures
            r@ == self@.push(index),
    {
        let mut new_path = clone_bytes(&self.path);
        new_path.push(index);
        TriangleAddress { path: new_path }
    }

    /// The address of the parent node; the root has none.
    pub fn parent(&self) -> (r: Option<TriangleAddress>)
        ensures
            self@.len() == 0 ==> r is None,
            self@.len() > 0 ==> (r matches Some(a) && a@ == self@.drop_last()),
    {
        if self.path.len() == 0 {
            None
        } else {
            let mut parent_path = clone_bytes(&self.path);
            let _ = parent_path.pop();
            proof {
                assert(parent_path@ =~= self@.drop_last());
            }
            Some(TriangleAddress { path: parent_path })
        }
    }

    /// An exact copy of this address.
    pub fn duplicate(&self) -> (r: TriangleAddress)
        ensures
            r@ == self@,
    {
        TriangleAddress { path: clone_bytes(&self.path) }
    }

    /// The number of branch indices on the path.
    pub fn depth(&self) -> (r: usize)
        ensures
            r == self@.len(),
    {
        self.path.len()
    }

    /// The branch index at position `i`.
    pub fn index_at(&self, i: usize) -> (r: u8)
        requires
            i < self@.len(),
        ensures
            r == self@[i as int],
    {
        self.path[i]
    }
}

/// An exact copy of a byte vector.
fn clone_bytes(v: &Vec<u8>) -> (r: Vec<u8>)
    ensures
        r@ == v@,
{
    let mut r: Vec<u8> = Vec::new();
    let mut i: usize = 0;
    while i < v.len()
        invariant
            0 <= i <= v.len(),
            r@ == v@.subrange(0, i as int),
        decreases v.len() - i,
    {
        r.push(v[i]);
        proof {
            assert(r@ =~= v@.subrange(0, i + 1));
        }
        i = i + 1;
    }
    proof {
        assert(r@ =~= v@);
    }
    r
}

impl PartialEq for TriangleAddress {
    /// Two addresses are equal exactly when their paths are.
    fn eq(&self, other: &TriangleAddress) -> (r: bool) {
        if self.path.len() != other.path.len() {
            proof {
                assert(self@.len() != other@.len());
            }
            return false;
        }
        let mut i: usize = 0;
        while i < self.path.len()
            invariant
                0 <= i <= self.path.len(),
                self@.len() == other@.len(),
                forall|k: int| 0 <= k < i ==> self@[k] == other@[k],
            decreases self.path.len() - i,
        {
            if self.path[i] != other.path[i] {
                return false;
            }
            i = i + 1;
        }
        proof {
            assert(self@ =~= other@);
        }
        true
    }
}

impl Eq for TriangleAddress {}

impl vstd::std_specs::cmp::PartialEqSpecImpl for TriangleAddress {
    open spec fn obeys_eq_spec() -> bool {
        true
    }

    open spec fn eq_spec(&self, other: &TriangleAddress) -> bool {
        self@ == other@
    }
}

/// The decimal digit `d` as a character.
pub open spec fn digit_char(d: int) -> char {
    if d == 0 { '0' }
    else if d == 1 { '1' }
    else if d == 2 { '2' }
    else if d == 3 { '3' }
    else if d == 4 { '4' }
    else if d == 5 { '5' }
    else if d == 6 { '6' }
    else if d == 7 { '7' }
    else if d == 8 { '8' }
    else { '9' }
}

/// The value of a decimal digit character, or `-1` for any other character.
pub open spec fn digit_val(c: char) -> int {
    if c == '0' { 0 }
    else if c == '1' { 1 }
    else if c == '2' { 2 }
    else if c == '3' { 3 }
    else if c == '4' { 4 }
    else if c == '5' { 5 }
    else if c == '6' { 6 }
    else if c == '7' { 7 }
    else if c == '8' { 8 }
    else if c == '9' { 9 }
    else { -1 }
}

pub open spec fn is_digit(c: char) -> bool {
    digit_val(c) >= 0
}

/// The decimal digits of `n`, most significant first, no leading zeros.
pub open spec fn digits_of(n: int) -> Seq<char>
    decreases n,
{
    if n < 10 {
        seq![digit_char(n)]
    } else {
        digits_of(n / 10).push(digit_char(n % 10))
    }
}

/// The value of a digit string, read left to right.
pub open spec fn token_val(t: Seq<char>) -> int
    decreases t.len(),
{
    if t.len() == 0 {
        0
    } else {
        token_val(t.drop_last()) * 10 + digit_val(t.last())
    }
}

/// A valid branch-index token: non-empty, all digits, and a branch index
/// of the ternary tree, so at most 2.
pub open spec fn token_ok(t: Seq<char>) -> bool {
    &&& t.len() > 0
    &&& forall|i: int| 0 <= i < t.len() ==> is_digit(#[trigger] t[i])
    &&& token_val(t) <= 2
}

/// Index of the first `.` in `s`, or `s.len()` if there is none.
pub open spec fn first_dot(s: Seq<char>) -> int
    decreases s.len(),
{
    if s.len() == 0 {
        0
    } else if s[0] == '.' {
        0
    } else {
        1 + first_dot(s.drop_first())
    }
}

/// Parse a non-empty dot-separated list of branch indices.
/// `None` on an empty token, a non-digit character, or an index over 2.
pub open spec fn parse_spec(s: Seq<char>) -> Option<Seq<u8>>
    decreases s.len(),
    via parse_spec_terminates
{
    let i = first_dot(s);
    let tok = s.subrange(0, i);
    if !token_ok(tok) {
        None
    } else if i == s.len() {
        Some(seq![token_val(tok) as u8])
    } else {
        match parse_spec(s.subrange(i + 1, s.len() as int)) {
            Option::None => None,
            Option::Some(rest) => Some(seq![token_val(tok) as u8] + rest),
        }
    }
}

#[via_fn]
proof fn parse_spec_terminates(s: Seq<char>) {
    lemma_first_dot(s);
}

/// Parse address text: the empty string is the root.
pub open spec fn addr_parse_spec(s: Seq<char>) -> Option<Seq<u8>> {
    if s.len() == 0 {
        Some(Seq::empty())
    } else {
        parse_spec(s)
    }
}

/// The text form of a path: indices in decimal, joined by `.`.
pub open spec fn display_spec(p: Seq<u8>) -> Seq<char>
    decreases p.len(),
{
    if p.len() == 0 {
        Seq::empty()
    } else if p.len() == 1 {
        digits_of(p[0] as int)
    } else {
        digits_of(p[0] as int) + seq!['.'] + display_spec(p.drop_first())
    }
}

/// `first_dot` ranges over the string, everything before it is not a dot,
/// and it points at a dot unless there is none.
pub proof fn lemma_first_dot(s: Seq<char>)
    ensures
        0 <= first_dot(s) <= s.len(),
        forall|i: int| 0 <= i < first_dot(s) ==> s[i] != '.',
        first_dot(s) < s.len() ==> s[first_dot(s)] == '.',
    decreases s.len(),
{
    if s.len() > 0 && s[0] != '.' {
        lemma_first_dot(s.drop_first());
        assert forall|i: int| 0 <= i < first_dot(s) implies s[i] != '.' by {
            if i >= 1 {
                assert(s[i] == s.drop_first()[i - 1]);
            }
        }
    }
}

/// The digits of `n` are non-empty, all decimal digits (so never a dot),
/// and read back to `n`.
pub proof fn lemma_digits_props(n: int)
    requires
        0 <= n,
    ensures
        digits_of(n).len() >= 1,
        forall|i: int| 0 <= i < digits_of(n).len()
            ==> is_digit(#[trigger] digits_of(n)[i]) && digits_of(n)[i] != '.',
        token_val(digits_of(n)) == n,
    decreases n,
{
    if n < 10 {
        assert(digits_of(n) =~= seq![digit_char(n)]);
        assert(digits_of(n).drop_last() =~= Seq::<char>::empty());
        assert(digits_of(n).last() == digit_char(n));
        assert(digit_val(digit_char(n)) == n);
        assert(token_val(digits_of(n)) == token_val(Seq::<char>::empty()) * 10 + n);
    } else {
        lemma_digits_props(n / 10);
        let d = digits_of(n / 10);
        let c = digit_char(n % 10);
        assert(digits_of(n) == d.push(c));
        assert(d.push(c).drop_last() =~= d);
        vstd::arithmetic::div_mod::lemma_fundamental_div_mod(n, 10);
        assert(0 <= n % 10 < 10) by {
            vstd::arithmetic::div_mod::lemma_mod_bound(n, 10);
        }
        assert(digit_val(c) == n % 10);
        assert(token_val(digits_of(n)) == token_val(d) * 10 + digit_val(c));
        assert forall|i: int| 0 <= i < digits_of(n).len()
            implies is_digit(#[trigger] digits_of(n)[i]) && digits_of(n)[i] != '.' by {
            if i < d.len() {
                assert(digits_of(n)[i] == d[i]);
            } else {
                assert(digits_of(n)[i] == c);
            }
        }
    }
}

/// A longer digit token never reads back to a smaller value.
pub proof fn lemma_token_val_prefix(t: Seq<char>, i: int)
    requires
        0 <= i <= t.len(),
        forall|k: int| 0 <= k < t.len() ==> is_digit(#[trigger] t[k]),
    ensures
        token_val(t.subrange(0, i)) <= token_val(t),
        token_val(t) >= 0,
    decreases t.len(),
{
    if t.len() == 0 {
        assert(t.subrange(0, i) =~= t);
    } else {
        let u = t.drop_last();
        assert forall|k: int| 0 <= k < u.len() implies is_digit(#[trigger] u[k]) by {
            assert(u[k] == t[k]);
        }
        lemma_token_val_prefix(u, if i <= u.len() { i } else { u.len() as int });
        assert(is_digit(t.last()));
        if i <= u.len() {
            assert(t.subrange(0, i) =~= u.subrange(0, i));
            assert(token_val(u) * 10 + digit_val(t.last()) >= token_val(u)) by (nonlinear_arith)
                requires
                    token_val(u) >= 0,
                    digit_val(t.last()) >= 0;
        } else {
            assert(t.subrange(0, i) =~= t);
            assert(token_val(u) * 10 + digit_val(t.last()) >= 0) by (nonlinear_arith)
                requires
                    token_val(u) >= 0,
                    digit_val(t.last()) >= 0;
        }
    }
}

/// `first_dot` is determined by any witness position.
pub proof fn lemma_first_dot_at(s: Seq<char>, k: int)
    requires
        0 <= k <= s.len(),
        forall|i: int| 0 <= i < k ==> s[i] != '.',
        k < s.len() ==> s[k] == '.',
    ensures
        first_dot(s) == k,
    decreases s.len(),
{
    if s.len() == 0 {
    } else if s[0] == '.' {
    } else {
        assert(k >= 1);
        let t = s.drop_first();
        assert forall|i: int| 0 <= i < k - 1 implies t[i] != '.' by {
            assert(t[i] == s[i + 1]);
        }
        lemma_first_dot_at(t, k - 1);
    }
}

} // verus!

verus! {

/// Appending one more index to the path appends `.` and its digits to the text
/// (or just the digits, if the path was empty).
pub proof fn lemma_display_snoc(p: Seq<u8>, x: u8)
    ensures
        p.len() == 0 ==> display_spec(p.push(x)) == digits_of(x as int),
        p.len() > 0 ==> display_spec(p.push(x))
            == display_spec(p) + seq!['.'] + digits_of(x as int),
    decreases p.len(),
{
    let q = p.push(x);
    if p.len() == 0 {
        assert(q.len() == 1);
        assert(q[0] == x);
    } else if p.len() == 1 {
        assert(q.len() == 2);
        assert(q[0] == p[0]);
        assert(q.drop_first() =~= seq![x]);
        assert(display_spec(q.drop_first()) == digits_of(x as int));
    } else {
        assert(q[0] == p[0]);
        assert(q.drop_first() =~= p.drop_first().push(x));
        lemma_display_snoc(p.drop_first(), x);
        assert(digits_of(p[0] as int) + seq!['.']
            + (display_spec(p.drop_first()) + seq!['.'] + digits_of(x as int))
            =~= (digits_of(p[0] as int) + seq!['.'] + display_spec(p.drop_first()))
                + seq!['.'] + digits_of(x as int));
    }
}

/// A single decimal digit as text.
fn digit_str(d: u8) -> (r: &'static str)
    requires
        d < 10,
    ensures
        r@ == seq![digit_char(d as int)],
{
    proof {
        reveal_strlit("0");
        reveal_strlit("1");
        reveal_strlit("2");
        reveal_strlit("3");
        reveal_strlit("4");
        reveal_strlit("5");
        reveal_strlit("6");
        reveal_strlit("7");
        reveal_strlit("8");
        reveal_strlit("9");
    }
    let r = match d {
        0 => "0",
        1 => "1",
        2 => "2",
        3 => "3",
        4 => "4",
        5 => "5",
        6 => "6",
        7 => "7",
        8 => "8",
        _ => "9",
    };
    proof {
        assert(r@ =~= seq![digit_char(d as int)]);
    }
    r
}

/// Append the decimal digits of `n` to `out`.
fn push_digits(out: &mut String, n: u8)
    ensures
        final(out)@ == old(out)@ + digits_of(n as int),
{
    if n >= 100 {
        out.append(digit_str(n / 100));
        out.append(digit_str((n / 10) % 10));
        out.append(digit_str(n % 10));
        proof {
            lemma_digits_unfold(n as int);
            assert(final(out)@ =~= old(out)@ + digits_of(n as int));
        }
    } else if n >= 10 {
        out.append(digit_str(n / 10));
        out.append(digit_str(n % 10));
        proof {
            lemma_digits_unfold(n as int);
            assert(final(out)@ =~= old(out)@ + digits_of(n as int));
        }
    } else {
        out.append(digit_str(n));
        proof {
            assert(final(out)@ =~= old(out)@ + digits_of(n as int));
        }
    }
}

/// The digit string of a byte, written out for each magnitude range.
proof fn lemma_digits_unfold(n: int)
    requires
        0 <= n <= 255,
    ensures
        10 <= n < 100 ==> digits_of(n)
            =~= seq![digit_char(n / 10), digit_char(n % 10)],
        100 <= n ==> digits_of(n)
            =~= seq![digit_char(n / 100), digit_char((n / 10) % 10), digit_char(n % 10)],
{
    if 10 <= n < 100 {
        assert(digits_of(n) == digits_of(n / 10).push(digit_char(n % 10)));
        assert(n / 10 < 10);
    } else if 100 <= n {
        assert(digits_of(n) == digits_of(n / 10).push(digit_char(n % 10)));
        assert(10 <= n / 10 < 100);
        assert(digits_of(n / 10) == digits_of(n / 10 / 10).push(digit_char((n / 10) % 10)));
        assert(n / 10 / 10 == n / 100) by {
            vstd::arithmetic::div_mod::lemma_div_denominator(n, 10, 10);
        }
        assert(n / 100 < 10);
    }
}

impl TriangleAddress {
    /// The text form: branch indices in decimal, joined by `.`;
    /// the root is the empty string.
    pub fn to_string(&self) -> (r: String)
        ensures
            r@ == display_spec(self@),
    {
        let mut out = String::new();
        let mut i: usize = 0;
        proof {
            assert(out@ =~= display_spec(self@.subrange(0, 0)));
        }
        while i < self.path.len()
            invariant
                0 <= i <= self@.len(),
                out@ == display_spec(self@.subrange(0, i as int)),
            decreases self@.len() - i,
        {
            if i > 0 {
                out.append(".");
                proof {
                    reveal_strlit(".");
                }
            }
            push_digits(&mut out, self.path[i]);
            proof {
                let pre = self@.subrange(0, i as int);
                lemma_display_snoc(pre, self@[i as int]);
                assert(self@.subrange(0, i + 1) =~= pre.push(self@[i as int]));
                if i > 0 {
                    assert(out@ =~= display_spec(pre) + seq!['.']
                        + digits_of(self@[i as int] as int));
                } else {
                    assert(pre.len() == 0);
                    assert(out@ =~= digits_of(self@[i as int] as int));
                }
            }
            i = i + 1;
        }
        proof {
            assert(self@.subrange(0, self@.len() as int) =~= self@);
        }
        out
    }

    /// Parse address text; the inverse of `to_string`.
    /// Fails on an empty token, a non-digit character, or an index over 2.
    pub fn parse(s: &str) -> (r: Result<TriangleAddress, TriangleError>)
        ensures
            r matches Ok(a) ==> addr_parse_spec(s@) == Some(a@),
            r is Err ==> addr_parse_spec(s@) is None
                && (r matches Err(TriangleError::InvalidAddressFormat)),
    {
        let n = s.unicode_len();
        if n == 0 {
            let a = TriangleAddress::root();
            proof {
                assert(a@ =~= Seq::<u8>::empty());
            }
            return Ok(a);
        }
        match parse_tail(s, 0, n) {
            Ok(v) => {
                let a = TriangleAddress { path: v };
                proof {
                    assert(s@.subrange(0, n as int) =~= s@);
                }
                Ok(a)
            },
            Err(e) => {
                proof {
                    assert(s@.subrange(0, n as int) =~= s@);
                }
                Err(e)
            },
        }
    }
}

/// Parse the tail `s[from..]` as a dot-separated list of branch indices.
fn parse_tail(s: &str, from: usize, n: usize) -> (r: Result<Vec<u8>, TriangleError>)
    requires
        n == s@.len(),
        from <= n,
    ensures
        r matches Ok(v) ==> parse_spec(s@.subrange(from as int, n as int)) == Some(v@),
        r is Err ==> parse_spec(s@.subrange(from as int, n as int)) is None
            && (r matches Err(TriangleError::InvalidAddressFormat)),
    decreases n - from,
{
    let ghost t = s@.subrange(from as int, n as int);
    let mut j: usize = from;
    let mut cur: u32 = 0;
    loop
        invariant
            from <= j <= n,
            n == s@.len(),
            forall|k: int| from <= k < j
                ==> s@[k] != '.' && is_digit(#[trigger] s@[k]),
            cur == token_val(s@.subrange(from as int, j as int)),
            cur <= 2,
            t == s@.subrange(from as int, n as int),
        ensures
            from <= j <= n,
            forall|k: int| from <= k < j
                ==> s@[k] != '.' && is_digit(#[trigger] s@[k]),
            cur == token_val(s@.subrange(from as int, j as int)),
            cur <= 2,
            j == n || s@[j as int] == '.',
        decreases n - j,
    {
        if j == n {
            break;
        }
        let c = s.get_char(j);
        if c == '.' {
            break;
        }
        let d: u32 = match c {
            '0' => 0,
            '1' => 1,
            '2' => 2,
            '3' => 3,
            '4' => 4,
            '5' => 5,
            '6' => 6,
            '7' => 7,
            '8' => 8,
            '9' => 9,
            _ => {
                proof {
                    lemma_token_invalid_char(t, (j - from) as int);
                }
                return Err(TriangleError::InvalidAddressFormat);
            },
        };
        let next = cur * 10 + d;
        proof {
            let pre = s@.subrange(from as int, j as int);
            let pre2 = s@.subrange(from as int, j + 1);
            assert(pre2.drop_last() =~= pre);
            assert(pre2.last() == s@[j as int]);
            assert(digit_val(s@[j as int]) == d);
        }
        if next > 2 {
            proof {
                assert(is_digit(s@[j as int]) && s@[j as int] != '.');
                assert forall|i: int| 0 <= i < j + 1 - from implies t[i] != '.' by {
                    assert(t[i] == s@[from + i]);
                }
                assert(t.subrange(0, j + 1 - from) =~= s@.subrange(from as int, j + 1));
                lemma_token_overflow(t, (j + 1 - from) as int);
            }
            return Err(TriangleError::InvalidAddressFormat);
        }
        cur = next;
        j = j + 1;
    }
    // relate positions of `t` to positions of `s`
    proof {
        assert forall|i: int| 0 <= i < j - from
            implies t[i] != '.' && is_digit(#[trigger] t[i]) by {
            assert(t[i] == s@[from + i]);
        }
    }
    if j == from {
        // empty token: first_dot(t) == 0, so the token is empty and invalid
        proof {
            if j < n {
                assert(t[0] == s@[j as int]);
            }
            lemma_first_dot_at(t, 0);
            assert(t.subrange(0, 0).len() == 0);
        }
        return Err(TriangleError::InvalidAddressFormat);
    }
    proof {
        if j < n {
            assert(t[j - from] == s@[j as int]);
        }
        lemma_first_dot_at(t, j - from);
        assert(t.subrange(0, j - from) =~= s@.subrange(from as int, j as int));
        assert(token_ok(t.subrange(0, j - from)));
    }
    if j == n {
        let mut v: Vec<u8> = Vec::new();
        v.push(cur as u8);
        proof {
            let tok = t.subrange(0, first_dot(t));
            assert(v@ =~= seq![token_val(tok) as u8]);
        }
        return Ok(v);
    }
    match parse_tail(s, j + 1, n) {
        Ok(rest) => {
            let ghost restv = rest@;
            let mut v = rest;
            v.insert(0, cur as u8);
            proof {
                let tok = t.subrange(0, first_dot(t));
                assert(t.subrange(first_dot(t) + 1, t.len() as int)
                    =~= s@.subrange(j + 1, n as int));
                assert(v@ =~= seq![token_val(tok) as u8] + restv);
            }
            Ok(v)
        },
        Err(e) => {
            proof {
                assert(t.subrange(first_dot(t) + 1, t.len() as int)
                    =~= s@.subrange(j + 1, n as int));
            }
            Err(e)
        },
    }
}

/// A non-digit, non-dot character inside the current token makes the
/// whole parse fail.
proof fn lemma_token_invalid_char(t: Seq<char>, k: int)
    requires
        0 <= k < t.len(),
        forall|i: int| 0 <= i < k ==> t[i] != '.',
        t[k] != '.',
        !is_digit(t[k]),
    ensures
        parse_spec(t) is None,
{
    lemma_first_dot(t);
    if first_dot(t) <= k {
        assert(t[first_dot(t)] == '.');
        assert(false);
    }
    let tok = t.subrange(0, first_dot(t));
    assert(tok[k] == t[k]);
    assert(!token_ok(tok));
}

/// Once the accumulated token value exceeds 2, the token is invalid
/// no matter how it continues.
proof fn lemma_token_overflow(t: Seq<char>, k: int)
    requires
        0 <= k <= t.len(),
        forall|i: int| 0 <= i < k ==> t[i] != '.',
        token_val(t.subrange(0, k)) > 2,
    ensures
        parse_spec(t) is None,
{
    lemma_first_dot(t);
    if first_dot(t) < k {
        assert(t[first_dot(t)] == '.');
        assert(false);
    }
    let tok = t.subrange(0, first_dot(t));
    if token_ok(tok) {
        lemma_token_val_prefix(tok, k);
        assert(tok.subrange(0, k) =~= t.subrange(0, k));
        assert(false);
    }
}

/// Displaying an address and parsing the text back yields the address:
/// for every path `p` of branch indices, `parse(display(p)) == Some(p)`.
pub proof fn lemma_display_parse_round_trip(p: Seq<u8>)
    requires
        forall|i: int| 0 <= i < p.len() ==> p[i] < 3,
    ensures
        addr_parse_spec(display_spec(p)) == Some(p),
{
    if p.len() == 0 {
        assert(p =~= Seq::<u8>::empty());
    } else {
        lemma_round_trip_nonempty(p);
        lemma_digits_props(p[0] as int);
        assert(display_spec(p).len() >= 1);
    }
}

/// Round trip for non-empty paths, by induction on the path.
proof fn lemma_round_trip_nonempty(p: Seq<u8>)
    requires
        p.len() >= 1,
        forall|i: int| 0 <= i < p.len() ==> p[i] < 3,
    ensures
        parse_spec(display_spec(p)) == Some(p),
        display_spec(p).len() >= digits_of(p[0] as int).len(),
    decreases p.len(),
{
    let s = display_spec(p);
    let d = digits_of(p[0] as int);
    lemma_digits_props(p[0] as int);
    if p.len() == 1 {
        assert(s == d);
        lemma_first_dot_at(s, s.len() as int);
        assert(s.subrange(0, s.len() as int) =~= s);
        assert(token_ok(s));
        assert(token_val(s) as u8 == p[0]);
        assert(seq![p[0]] =~= p);
    } else {
        let rest = p.drop_first();
        let sr = display_spec(rest);
        lemma_round_trip_nonempty(rest);
        assert(s == d + seq!['.'] + sr);
        assert forall|i: int| 0 <= i < d.len() implies s[i] != '.' by {
            assert(s[i] == d[i]);
        }
        assert(s[d.len() as int] == '.');
        lemma_first_dot_at(s, d.len() as int);
        let tok = s.subrange(0, d.len() as int);
        assert(tok =~= d);
        assert(token_ok(tok));
        assert(token_val(tok) as u8 == p[0]);
        assert(s.subrange(d.len() as int + 1, s.len() as int) =~= sr);
        lemma_digits_props(rest[0] as int);
        assert(sr.len() >= 1);
        assert(seq![p[0]] + rest =~= p);
    }
}

impl core::str::FromStr for TriangleAddress {
    type Err = TriangleError;

    fn from_str(s: &str) -> Result<TriangleAddress, TriangleError> {
        TriangleAddress::parse(s)
    }
}

} // verus!
