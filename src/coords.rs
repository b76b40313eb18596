//! Board coordinates and their text form `"x,y"`.

use vstd::prelude::*;

verus! {

/// The decimal digit for `d < 10`.
pub open spec fn digit_char(d: int) -> char {
    (('0' as int) + d) as char
}

/// The decimal text of `n`, without leading zeros.
pub open spec fn decimal(n: nat) -> Seq<char>
    decreases n,
{
    if n < 10 {
        seq![digit_char(n as int)]
    } else {
        decimal(n / 10) + seq![digit_char((n % 10) as int)]
    }
}

/// Text of the coordinates `(x, y)`: `"x,y"`.
pub open spec fn coords_text(x: nat, y: nat) -> Seq<char> {
    decimal(x) + seq![','] + decimal(y)
}

/// The one-digit text of `d`.
fn digit_str(d: usize) -> (r: &'static str)
    requires
        d < 10,
    ensures
        r@ == seq![digit_char(d as int)],
{
    proof {
        reveal_strlit("0");
        reveal_strlit("1");
        reveal_strlit("2");
        reveal_strlit("3");
        reveal_strlit("4");
        reveal_strlit("5");
        reveal_strlit("6");
        reveal_strlit("7");
        reveal_strlit("8");
        reveal_strlit("9");
    }
    let r = match d {
        0 => "0",
        1 => "1",
        2 => "2",
        3 => "3",
        4 => "4",
        5 => "5",
        6 => "6",
        7 => "7",
        8 => "8",
        _ => "9",
    };
    assert(r@ =~= seq![digit_char(d as int)]);
    r
}

/// Appends the decimal text of `n` to `s`.
fn push_decimal(s: &mut String, n: usize)
    ensures
        final(s)@ == old(s)@ + decimal(n as nat),
    decreases n,
{
    if n >= 10 {
        push_decimal(s, n / 10);
    }
    s.append(digit_str(n % 10));
    assert(final(s)@ =~= old(s)@ + decimal(n as nat)) by {
        if n >= 10 {
            assert(old(s)@ + decimal(n as nat) =~= old(s)@ + decimal((n / 10) as nat) + seq![
                digit_char((n % 10) as int),
            ]);
        }
    }
}

/// A cell of the board: column `x`, row `y`.
#[derive(Clone, Copy, Debug, PartialEq, Eq, Hash, PartialOrd, Ord, Structural)]
pub struct Coords(pub usize, pub usize);

impl Coords {
    /// Reads the text `"x,y"`: two fields around one comma, each an optional
    /// `+` and decimal digits, white space around them ignored.
    pub fn parse(s: &str) -> (r: Result<Coords, CoordsError>)
        ensures
            r == parse_spec(s@),
    {
        let t = chars_of(s);
        let mut first: Option<usize> = None;
        let mut i: usize = 0;
        while i < t.len()
            invariant
                t@ == s@,
                i <= t@.len(),
                first is None ==> forall|k: int| 0 <= k < i ==> t@[k] != ',',
                first matches Some(c) ==> c < i && t@[c as int] == ',' && forall|k: int|
                    0 <= k < i && k != c ==> t@[k] != ',',
            decreases t@.len() - i,
        {
            if t[i] == ',' {
                match first {
                    None => {
                        first = Some(i);
                    },
                    Some(c) => {
                        assert forall|x: int| !only_comma_at(t@, x) by {
                            if only_comma_at(t@, x) {
                                if x == c {
                                    assert(t@[i as int] == ',');
                                } else {
                                    assert(t@[c as int] == ',');
                                }
                            }
                        }
                        return Err(CoordsError::Format);
                    },
                }
            }
            i = i + 1;
        }
        match first {
            None => {
                assert forall|x: int| !only_comma_at(t@, x) by {}
                Err(CoordsError::Format)
            },
            Some(c) => {
                assert(only_comma_at(t@, c as int));
                assert forall|x: int| only_comma_at(t@, x) implies x == c by {
                    if x != c {
                        assert(t@[c as int] == ',');
                    }
                }
                assert(t@.take(c as int) =~= t@.subrange(0, c as int));
                assert(t@.skip(c + 1) =~= t@.subrange(c + 1, t@.len() as int));
                match parse_field(&t, 0, c) {
                    Err(e) => Err(CoordsError::InvalidX(e)),
                    Ok(x) => match parse_field(&t, c + 1, t.len()) {
                        Err(e) => Err(CoordsError::InvalidY(e)),
                        Ok(y) => Ok(Coords(x, y)),
                    },
                }
            },
        }
    }

    /// The text `"x,y"`.
    pub fn to_string(&self) -> (r: String)
        ensures
            r@ == coords_text(self.0 as nat, self.1 as nat),
    {
        let mut s = String::new();
        push_decimal(&mut s, self.0);
        proof {
            reveal_strlit(",");
        }
        s.append(",");
        push_decimal(&mut s, self.1);
        assert(s@ =~= coords_text(self.0 as nat, self.1 as nat));
        s
    }
}

/// `char::is_whitespace`: the characters of Unicode's White_Space property.
pub open spec fn is_white(c: char) -> bool {
    let v = c as u32;
    (0x9 <= v <= 0xd) || v == 0x20 || v == 0x85 || v == 0xa0 || v == 0x1680 || (0x2000 <= v <= 0x200a)
        || v == 0x2028 || v == 0x2029 || v == 0x202f || v == 0x205f || v == 0x3000
}

pub open spec fn trim_start(t: Seq<char>) -> Seq<char>
    decreases t.len(),
{
    if t.len() > 0 && is_white(t[0]) {
        trim_start(t.drop_first())
    } else {
        t
    }
}

pub open spec fn trim_end(t: Seq<char>) -> Seq<char>
    decreases t.len(),
{
    if t.len() > 0 && is_white(t.last()) {
        trim_end(t.drop_last())
    } else {
        t
    }
}

/// `str::trim`: the text without leading and trailing white space.
pub open spec fn trim(t: Seq<char>) -> Seq<char> {
    trim_end(trim_start(t))
}

pub open spec fn is_digit(c: char) -> bool {
    0x30 <= (c as u32) <= 0x39
}

pub open spec fn digit_value(c: char) -> int {
    (c as u32) - 0x30
}

/// Why a field is not a number.
#[derive(Clone, Copy, Debug, PartialEq, Eq, Structural)]
pub enum NumberError {
    /// The field is empty.
    Empty,
    /// A character is not a decimal digit.
    InvalidDigit,
    /// The number does not fit in a `usize`.
    PosOverflow,
}

/// Reads the first `k` characters of `t` as decimal digits, left to right:
/// the first character that is no digit, or the first digit that takes the
/// value past `usize::MAX`, decides the error.
pub open spec fn scan_digits(t: Seq<char>, k: int) -> Result<usize, NumberError>
    decreases k,
{
    if k <= 0 {
        Ok(0)
    } else {
        match scan_digits(t, k - 1) {
            Err(e) => Err(e),
            Ok(v) => {
                if !is_digit(t[k - 1]) {
                    Err(NumberError::InvalidDigit)
                } else if v * 10 + digit_value(t[k - 1]) > usize::MAX {
                    Err(NumberError::PosOverflow)
                } else {
                    Ok((v * 10 + digit_value(t[k - 1])) as usize)
                }
            },
        }
    }
}

/// `usize::from_str`: an optional `+`, then at least one decimal digit.
pub open spec fn parse_usize(t: Seq<char>) -> Result<usize, NumberError> {
    if t.len() == 0 {
        Err(NumberError::Empty)
    } else if t[0] == '+' {
        if t.len() == 1 {
            Err(NumberError::InvalidDigit)
        } else {
            scan_digits(t.drop_first(), t.len() - 1)
        }
    } else {
        scan_digits(t, t.len() as int)
    }
}

/// Why a text is not a pair of coordinates.
#[derive(Clone, Copy, Debug, PartialEq, Eq, Structural)]
pub enum CoordsError {
    /// The text does not split at commas into exactly two fields.
    Format,
    InvalidX(NumberError),
    InvalidY(NumberError),
}

/// `c` is the one comma of `t`.
pub open spec fn only_comma_at(t: Seq<char>, c: int) -> bool {
    &&& 0 <= c < t.len()
    &&& t[c] == ','
    &&& forall|i: int| 0 <= i < t.len() && i != c ==> t[i] != ','
}

/// The coordinates that the text `t` stands for: two fields around the one
/// comma, each a number once trimmed.
pub open spec fn parse_spec(t: Seq<char>) -> Result<Coords, CoordsError> {
    if !(exists|c: int| only_comma_at(t, c)) {
        Err(CoordsError::Format)
    } else {
        let c = choose|c: int| only_comma_at(t, c);
        match parse_usize(trim(t.take(c))) {
            Err(e) => Err(CoordsError::InvalidX(e)),
            Ok(x) => match parse_usize(trim(t.skip(c + 1))) {
                Err(e) => Err(CoordsError::InvalidY(e)),
                Ok(y) => Ok(Coords(x, y)),
            },
        }
    }
}

/// Once the digit scan fails, reading further keeps the same error.
proof fn lemma_scan_error_stays(t: Seq<char>, j: int, k: int)
    requires
        0 <= j <= k,
        scan_digits(t, j) is Err,
    ensures
        scan_digits(t, k) == scan_digits(t, j),
    decreases k - j,
{
    if k > j {
        lemma_scan_error_stays(t, j, k - 1);
    }
}

fn is_white_char(c: char) -> (r: bool)
    ensures
        r == is_white(c),
{
    let v = c as u32;
    (0x9 <= v && v <= 0xd) || v == 0x20 || v == 0x85 || v == 0xa0 || v == 0x1680 || (0x2000 <= v && v
        <= 0x200a) || v == 0x2028 || v == 0x2029 || v == 0x202f || v == 0x205f || v == 0x3000
}

/// Reads `t[lo..hi]`, trimmed, as a `usize`.
fn parse_field(t: &Vec<char>, lo: usize, hi: usize) -> (r: Result<usize, NumberError>)
    requires
        lo <= hi <= t@.len(),
    ensures
        r == parse_usize(trim(t@.subrange(lo as int, hi as int))),
{
    let ghost whole = t@.subrange(lo as int, hi as int);
    let mut a = lo;
    while a < hi && is_white_char(t[a])
        invariant
            lo <= a <= hi <= t@.len(),
            trim_start(whole) == trim_start(t@.subrange(a as int, hi as int)),
        decreases hi - a,
    {
        assert(t@.subrange(a as int, hi as int).drop_first() =~= t@.subrange(a + 1, hi as int));
        a = a + 1;
    }
    assert(trim_start(whole) == t@.subrange(a as int, hi as int));
    let mut b = hi;
    while b > a && is_white_char(t[b - 1])
        invariant
            lo <= a <= b <= hi <= t@.len(),
            trim(whole) == trim_end(t@.subrange(a as int, b as int)),
        decreases b - a,
    {
        assert(t@.subrange(a as int, b as int).drop_last() =~= t@.subrange(a as int, b - 1));
        b = b - 1;
    }
    let ghost u = t@.subrange(a as int, b as int);
    assert(trim(whole) == u);
    if a == b {
        return Err(NumberError::Empty);
    }
    let mut start = a;
    if t[a] == '+' {
        if b == a + 1 {
            return Err(NumberError::InvalidDigit);
        }
        start = a + 1;
    }
    let ghost w = t@.subrange(start as int, b as int);
    assert(start > a ==> u.drop_first() =~= w);
    assert(start == a ==> u =~= w);
    assert(u[0] == t@[a as int]);
    assert(parse_usize(u) == scan_digits(w, w.len() as int));
    let mut v: usize = 0;
    let mut k = start;
    while k < b
        invariant
            start <= k <= b <= t@.len(),
            w == t@.subrange(start as int, b as int),
            parse_usize(trim(t@.subrange(lo as int, hi as int))) == scan_digits(w, w.len() as int),
            scan_digits(w, k - start) == Ok::<usize, NumberError>(v),
        decreases b - k,
    {
        let c = t[k];
        assert(w[k - start] == c);
        if !(0x30 <= c as u32 && c as u32 <= 0x39) {
            assert(scan_digits(w, k - start + 1) == Err::<usize, NumberError>(NumberError::InvalidDigit));
            proof {
                lemma_scan_error_stays(w, k - start + 1, w.len() as int);
            }
            return Err(NumberError::InvalidDigit);
        }
        let d = (c as u32 - 0x30) as usize;
        match v.checked_mul(10) {
            None => {
                assert(scan_digits(w, k - start + 1) == Err::<usize, NumberError>(NumberError::PosOverflow));
                proof {
                    lemma_scan_error_stays(w, k - start + 1, w.len() as int);
                }
                return Err(NumberError::PosOverflow);
            },
            Some(m) => match m.checked_add(d) {
                None => {
                    assert(scan_digits(w, k - start + 1) == Err::<usize, NumberError>(NumberError::PosOverflow));
                    proof {
                        lemma_scan_error_stays(w, k - start + 1, w.len() as int);
                    }
                    return Err(NumberError::PosOverflow);
                },
                Some(next) => {
                    v = next;
                },
            },
        }
        k = k + 1;
    }
    Ok(v)
}

/// The characters of `s`.
fn chars_of(s: &str) -> (r: Vec<char>)
    ensures
        r@ == s@,
{
    let n = s.unicode_len();
    let mut out: Vec<char> = Vec::new();
    let mut i: usize = 0;
    while i < n
        invariant
            n == s@.len(),
            i <= n,
            out@ == s@.take(i as int),
        decreases n - i,
    {
        out.push(s.get_char(i));
        assert(out@ =~= s@.take(i + 1));
        i = i + 1;
    }
    assert(s@.take(n as int) =~= s@);
    out
}

impl NumberError {
    pub open spec fn text(self) -> Seq<char> {
        match self {
            NumberError::Empty => "cannot parse integer from empty string"@,
            NumberError::InvalidDigit => "invalid digit found in string"@,
            NumberError::PosOverflow => "number too large to fit in target type"@,
        }
    }

    /// What went wrong, in words.
    pub fn message(&self) -> (r: String)
        ensures
            r@ == self.text(),
    {
        match self {
            NumberError::Empty => String::from_str("cannot parse integer from empty string"),
            NumberError::InvalidDigit => String::from_str("invalid digit found in string"),
            NumberError::PosOverflow => String::from_str("number too large to fit in target type"),
        }
    }
}

impl CoordsError {
    pub open spec fn text(self) -> Seq<char> {
        match self {
            CoordsError::Format => "Input must be in format `x,y`"@,
            CoordsError::InvalidX(e) => "Invalid x: "@ + e.text(),
            CoordsError::InvalidY(e) => "Invalid y: "@ + e.text(),
        }
    }

    /// What went wrong, in words.
    pub fn message(&self) -> (r: String)
        ensures
            r@ == self.text(),
    {
        match self {
            CoordsError::Format => String::from_str("Input must be in format `x,y`"),
            CoordsError::InvalidX(e) => {
                let mut s = String::from_str("Invalid x: ");
                s.append(e.message().as_str());
                s
            },
            CoordsError::InvalidY(e) => {
                let mut s = String::from_str("Invalid y: ");
                s.append(e.message().as_str());
                s
            },
        }
    }
}

impl core::str::FromStr for Coords {
    type Err = CoordsError;

    fn from_str(s: &str) -> (r: Result<Coords, CoordsError>)
        ensures
            r == parse_spec(s@),
    {
        Coords::parse(s)
    }
}

proof fn lemma_digit_char(d: int)
    requires
        0 <= d < 10,
    ensures
        is_digit(digit_char(d)),
        digit_value(digit_char(d)) == d,
        !is_white(digit_char(d)),
        digit_char(d) != ',',
        digit_char(d) != '+',
{
}

/// The decimal text is made of digits only, one at least.
proof fn lemma_decimal_digits(n: nat)
    ensures
        decimal(n).len() >= 1,
        forall|k: int| 0 <= k < decimal(n).len() ==> is_digit(#[trigger] decimal(n)[k]) && decimal(n)[k]
            != ',' && !is_white(decimal(n)[k]) && decimal(n)[k] != '+',
    decreases n,
{
    lemma_digit_char((n % 10) as int);
    if n >= 10 {
        lemma_decimal_digits(n / 10);
        let t = decimal(n);
        let p = decimal(n / 10);
        assert forall|k: int| 0 <= k < t.len() implies is_digit(#[trigger] t[k]) && t[k] != ',' && !is_white(
            t[k],
        ) && t[k] != '+' by {
            if k < p.len() {
                assert(t[k] == p[k]);
            }
        }
    }
}

/// The digit scan reads only the first `k` characters.
proof fn lemma_scan_prefix(t: Seq<char>, u: Seq<char>, k: int)
    requires
        0 <= k <= t.len(),
        k <= u.len(),
        t.take(k) == u.take(k),
    ensures
        scan_digits(t, k) == scan_digits(u, k),
    decreases k,
{
    if k > 0 {
        assert(t.take(k - 1) =~= t.take(k).take(k - 1));
        assert(u.take(k - 1) =~= u.take(k).take(k - 1));
        assert(t[k - 1] == t.take(k)[k - 1]);
        assert(u[k - 1] == u.take(k)[k - 1]);
        lemma_scan_prefix(t, u, k - 1);
    }
}

/// The decimal text of a `usize` reads back as that number.
proof fn lemma_scan_decimal(n: usize)
    ensures
        scan_digits(decimal(n as nat), decimal(n as nat).len() as int) == Ok::<usize, NumberError>(n),
    decreases n,
{
    let t = decimal(n as nat);
    lemma_digit_char((n % 10) as int);
    if n < 10 {
        assert(scan_digits(t, 0) == Ok::<usize, NumberError>(0));
    } else {
        let m = (n / 10) as usize;
        let p = decimal(m as nat);
        lemma_scan_decimal(m);
        assert(t =~= p + seq![digit_char((n % 10) as int)]);
        assert(t.take(p.len() as int) =~= p.take(p.len() as int));
        lemma_scan_prefix(t, p, p.len() as int);
        assert(p.take(p.len() as int) =~= p);
        assert(m * 10 + n % 10 == n);
    }
}

/// Trimming leaves a text that starts and ends with no white space as it is.
proof fn lemma_trim_keeps(t: Seq<char>)
    requires
        t.len() >= 1,
        !is_white(t[0]),
        !is_white(t.last()),
    ensures
        trim(t) == t,
{
}

/// The text of a pair of coordinates reads back as that pair.
pub proof fn lemma_text_round_trip(c: Coords)
    ensures
        parse_spec(coords_text(c.0 as nat, c.1 as nat)) == Ok::<Coords, CoordsError>(c),
{
    let dx = decimal(c.0 as nat);
    let dy = decimal(c.1 as nat);
    let t = coords_text(c.0 as nat, c.1 as nat);
    lemma_decimal_digits(c.0 as nat);
    lemma_decimal_digits(c.1 as nat);
    let k = dx.len() as int;
    assert forall|i: int| 0 <= i < t.len() && i != k implies t[i] != ',' by {
        if i < k {
            assert(t[i] == dx[i]);
        } else {
            assert(t[i] == dy[i - k - 1]);
        }
    }
    assert(t[k] == ',');
    assert(only_comma_at(t, k));
    assert forall|x: int| only_comma_at(t, x) implies x == k by {}
    assert(t.take(k) =~= dx);
    assert(t.skip(k + 1) =~= dy);
    lemma_trim_keeps(dx);
    lemma_trim_keeps(dy);
    lemma_scan_decimal(c.0);
    lemma_scan_decimal(c.1);
}

} // verus!
