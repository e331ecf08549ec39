use vstd::prelude::*;

verus! {

pub open spec fn is_digit(c: char) -> bool {
    '0' <= c && c <= '9'
}

pub open spec fn is_sign(c: char) -> bool {
    c == '+' || c == '-'
}

/// `c` is the lower-case ASCII letter `w`, written in either case.
pub open spec fn same_letter(c: char, w: char) -> bool {
    c == w || ('a' <= w && w <= 'z' && (c as u32) + 32 == (w as u32))
}

/// `u` spells the lower-case word `w`, ignoring ASCII case.
pub open spec fn spells(u: Seq<char>, w: Seq<char>) -> bool {
    u.len() == w.len() && forall|k: int| 0 <= k < u.len() ==> same_letter(#[trigger] u[k], w[k])
}

/// Number of decimal digits that `s` starts with.
pub open spec fn digit_run(s: Seq<char>) -> nat
    decreases s.len(),
{
    if s.len() > 0 && is_digit(s[0]) {
        1 + digit_run(s.drop_first())
    } else {
        0
    }
}

/// `e` or `E`, an optional sign, then one or more digits.
pub open spec fn is_exponent(t: Seq<char>) -> bool {
    t.len() > 0 && same_letter(t[0], 'e') && {
        let u = if t.len() > 1 && is_sign(t[1]) {
            t.skip(2)
        } else {
            t.skip(1)
        };
        u.len() > 0 && digit_run(u) == u.len()
    }
}

/// Digits with an optional fraction, at least one digit in all, then an
/// optional exponent.
pub open spec fn is_decimal(u: Seq<char>) -> bool {
    let a = digit_run(u);
    let rest = u.skip(a as int);
    if rest.len() > 0 && rest[0] == '.' {
        let b = digit_run(rest.skip(1));
        let t = rest.skip(1 + b as int);
        a + b > 0 && (t.len() == 0 || is_exponent(t))
    } else {
        a > 0 && (rest.len() == 0 || is_exponent(rest))
    }
}

/// The texts that `f64::from_str` accepts: an optional sign, then `inf`,
/// `infinity` or `nan` in any case, or a decimal number.
pub open spec fn is_float_literal(s: Seq<char>) -> bool {
    let u = if s.len() > 0 && is_sign(s[0]) {
        s.skip(1)
    } else {
        s
    };
    spells(u, seq!['i', 'n', 'f']) || spells(u, seq!['i', 'n', 'f', 'i', 'n', 'i', 't', 'y'])
        || spells(u, seq!['n', 'a', 'n']) || is_decimal(u)
}

/// Why a text is not a number, as `f64::from_str` reports it.
#[derive(Debug, Clone, Copy, PartialEq, Eq)]
pub enum NumberError {
    /// The text is empty.
    Empty,
    /// The text is not empty and is no float literal.
    Invalid,
}

impl NumberError {
    /// The message that `f64::from_str` gives for this error.
    pub fn message(&self) -> (r: String)
        ensures
            r@ == self.message_spec(),
    {
        match self {
            NumberError::Empty => String::from_str("cannot parse float from empty string"),
            NumberError::Invalid => String::from_str("invalid float literal"),
        }
    }

    pub open spec fn message_spec(&self) -> Seq<char> {
        match self {
            NumberError::Empty => "cannot parse float from empty string"@,
            NumberError::Invalid => "invalid float literal"@,
        }
    }
}

/// The error that a text that is no float literal gives.
pub open spec fn number_error(t: Seq<char>) -> NumberError {
    if t.len() == 0 {
        NumberError::Empty
    } else {
        NumberError::Invalid
    }
}

proof fn lemma_skip_skip(s: Seq<char>, a: int, b: int)
    requires
        0 <= a,
        0 <= b,
        a + b <= s.len(),
    ensures
        s.skip(a).skip(b) == s.skip(a + b),
{
    assert(s.skip(a).skip(b) =~= s.skip(a + b));
}

/// Number of digits in `s` from position `from` on, up to the first other
/// character.
fn count_digits(s: &[char], from: usize) -> (r: usize)
    requires
        from <= s@.len(),
    ensures
        r == digit_run(s@.skip(from as int)),
        from + r <= s@.len(),
{
    let mut j: usize = from;
    while j < s.len() && '0' <= s[j] && s[j] <= '9'
        invariant
            from <= j <= s@.len(),
            digit_run(s@.skip(from as int)) == (j - from) + digit_run(s@.skip(j as int)),
        decreases s@.len() - j,
    {
        assert(s@.skip(j as int).drop_first() =~= s@.skip(j + 1));
        j = j + 1;
    }
    j - from
}

fn same_letter_char(c: char, w: char) -> (r: bool)
    ensures
        r == same_letter(c, w),
{
    c == w || ('a' <= w && w <= 'z' && (c as u32) + 32 == (w as u32))
}

/// Whether the characters of `s` from `st` on spell `w`, ignoring case.
fn spells_at(s: &[char], st: usize, w: &Vec<char>) -> (r: bool)
    requires
        st <= s@.len(),
    ensures
        r == spells(s@.skip(st as int), w@),
{
    let n = s.len();
    if n - st != w.len() {
        return false;
    }
    let mut k: usize = 0;
    while k < w.len()
        invariant
            st <= s@.len(),
            st + w@.len() == s@.len(),
            n == s@.len(),
            k <= w@.len(),
            forall|i: int| 0 <= i < k ==> same_letter(#[trigger] s@.skip(st as int)[i], w@[i]),
        decreases w@.len() - k,
    {
        assert(st + k < s@.len());
        let c = s[st + k];
        if !same_letter_char(c, w[k]) {
            assert(s@.skip(st as int)[k as int] == s@[st + k]);
            return false;
        }
        k = k + 1;
    }
    true
}

fn is_exponent_at(s: &[char], p: usize) -> (r: bool)
    requires
        p <= s@.len(),
    ensures
        r == is_exponent(s@.skip(p as int)),
{
    let n = s.len();
    if p >= n || !same_letter_char(s[p], 'e') {
        return false;
    }
    let q: usize = if p + 1 < n && (s[p + 1] == '+' || s[p + 1] == '-') {
        p + 2
    } else {
        p + 1
    };
    proof {
        lemma_skip_skip(s@, p as int, (q - p) as int);
    }
    let d = count_digits(s, q);
    q < n && d == n - q
}

/// Whether `s` is a text that `f64::from_str` accepts.
pub fn is_float_text(s: &[char]) -> (r: bool)
    ensures
        r == is_float_literal(s@),
{
    let n = s.len();
    let st: usize = if n > 0 && (s[0] == '+' || s[0] == '-') {
        1
    } else {
        0
    };
    assert(s@.skip(0) =~= s@);
    let inf = vec!['i', 'n', 'f'];
    let infinity = vec!['i', 'n', 'f', 'i', 'n', 'i', 't', 'y'];
    let nan = vec!['n', 'a', 'n'];
    if spells_at(s, st, &inf) || spells_at(s, st, &infinity) || spells_at(s, st, &nan) {
        return true;
    }
    is_decimal_at(s, st)
}

fn is_decimal_at(s: &[char], st: usize) -> (r: bool)
    requires
        st <= s@.len(),
    ensures
        r == is_decimal(s@.skip(st as int)),
{
    let n = s.len();
    let a = count_digits(s, st);
    let p = st + a;
    proof {
        lemma_skip_skip(s@, st as int, a as int);
    }
    if p < n && s[p] == '.' {
        proof {
            lemma_skip_skip(s@, p as int, 1);
        }
        let b = count_digits(s, p + 1);
        proof {
            lemma_skip_skip(s@, p as int, 1 + b);
        }
        a + b > 0 && (p + 1 + b == n || is_exponent_at(s, p + 1 + b))
    } else {
        a > 0 && (p == n || is_exponent_at(s, p))
    }
}

} // verus!
