//! Text as a sequence of characters: trimming, splitting, lines and numbers.
use vstd::prelude::*;
use vstd::slice::slice_subrange;
use vstd::string::StringExecFns;

verus! {

/// `String::push`: the text with one more character at its end.
pub assume_specification[ String::push ](s: &mut String, c: char)
    ensures
        final(s)@ == old(s)@.push(c),
;

/// The characters of a text.
pub fn chars_of(s: &str) -> (chars: Vec<char>)
    ensures
        chars@ == s@,
{
    let mut chars: Vec<char> = Vec::new();
    for c in it: s.chars()
        invariant
            chars@ == it.seq().take(it.index() as int),
            it.seq() == s@,
    {
        chars.push(c);
        assert(it.seq().take(it.index() + 1) =~= it.seq().take(it.index() as int).push(c));
    }
    assert(s@.take(s@.len() as int) =~= s@);
    chars
}

/// The text made of some characters.
pub fn string_of(chars: &[char]) -> (s: String)
    ensures
        s@ == chars@,
{
    let mut s = String::new();
    let n: usize = chars.len();
    let mut i: usize = 0;
    while i < n
        invariant
            i <= n == chars@.len(),
            s@ == chars@.take(i as int),
        decreases n - i,
    {
        s.push(chars[i]);
        i += 1;
        assert(chars@.take(i as int) =~= chars@.take(i - 1).push(chars@[i - 1]));
    }
    assert(chars@.take(n as int) =~= chars@);
    s
}

pub fn same(a: &[char], b: &[char]) -> (r: bool)
    ensures
        r == (a@ == b@),
{
    let n: usize = a.len();
    if n != b.len() {
        return false;
    }
    let mut i: usize = 0;
    while i < n
        invariant
            i <= n == a@.len() == b@.len(),
            forall|k: int| 0 <= k < i ==> a@[k] == b@[k],
        decreases n - i,
    {
        if a[i] != b[i] {
            return false;
        }
        i += 1;
    }
    assert(a@ =~= b@);
    true
}

/// Whether the characters are those of a text.
pub fn is_text(a: &[char], text: &str) -> (r: bool)
    ensures
        r == (a@ == text@),
{
    let b = chars_of(text);
    same(a, b.as_slice())
}

/// Whether two texts are the same. Their bytes are compared where they are: no
/// copy is made, which matters for a password.
pub fn same_text(a: &str, b: &str) -> (r: bool)
    ensures
        r == (a@ == b@),
{
    let x = a.as_bytes();
    let y = b.as_bytes();
    let n: usize = x.len();
    if n != y.len() {
        return false;
    }
    let mut i: usize = 0;
    while i < n
        invariant
            i <= n == x@.len() == y@.len(),
            x@ == vstd::utf8::encode_utf8(a@),
            y@ == vstd::utf8::encode_utf8(b@),
            forall|k: int| 0 <= k < i ==> x@[k] == y@[k],
        decreases n - i,
    {
        if x[i] != y[i] {
            return false;
        }
        i += 1;
    }
    assert(x@ =~= y@);
    proof {
        vstd::utf8::encode_utf8_decode_utf8(a@);
        vstd::utf8::encode_utf8_decode_utf8(b@);
    }
    true
}

/// The characters that Unicode counts as white space.
pub open spec fn white(c: char) -> bool {
    let n = c as u32;
    ||| 9 <= n <= 13
    ||| n == 0x20
    ||| n == 0x85
    ||| n == 0xa0
    ||| n == 0x1680
    ||| 0x2000 <= n <= 0x200a
    ||| n == 0x2028
    ||| n == 0x2029
    ||| n == 0x202f
    ||| n == 0x205f
    ||| n == 0x3000
}

pub fn is_white(c: char) -> (r: bool)
    ensures
        r == white(c),
{
    let n: u32 = c as u32;
    (9 <= n && n <= 13) || n == 0x20 || n == 0x85 || n == 0xa0 || n == 0x1680 || (0x2000 <= n && n
        <= 0x200a) || n == 0x2028 || n == 0x2029 || n == 0x202f || n == 0x205f || n == 0x3000
}

/// A text without the white space at its start.
pub open spec fn trimmed_start(s: Seq<char>) -> Seq<char>
    decreases s.len(),
{
    if s.len() > 0 && white(s.first()) {
        trimmed_start(s.drop_first())
    } else {
        s
    }
}

/// A text without the white space at its end.
pub open spec fn trimmed_end(s: Seq<char>) -> Seq<char>
    decreases s.len(),
{
    if s.len() > 0 && white(s.last()) {
        trimmed_end(s.drop_last())
    } else {
        s
    }
}

pub open spec fn trimmed(s: Seq<char>) -> Seq<char> {
    trimmed_end(trimmed_start(s))
}

pub fn trim_start(s: &[char]) -> (r: &[char])
    ensures
        r@ == trimmed_start(s@),
{
    let n: usize = s.len();
    let mut i: usize = 0;
    assert(s@.skip(0) =~= s@);
    while i < n && is_white(s[i])
        invariant
            i <= n == s@.len(),
            trimmed_start(s@.skip(i as int)) == trimmed_start(s@),
        decreases n - i,
    {
        assert(s@.skip(i as int).drop_first() =~= s@.skip(i + 1));
        i += 1;
    }
    assert(s@.subrange(i as int, n as int) =~= s@.skip(i as int));
    slice_subrange(s, i, n)
}

pub fn trim_end(s: &[char]) -> (r: &[char])
    ensures
        r@ == trimmed_end(s@),
{
    let mut n: usize = s.len();
    assert(s@.take(n as int) =~= s@);
    while n > 0 && is_white(s[n - 1])
        invariant
            n <= s@.len(),
            trimmed_end(s@.take(n as int)) == trimmed_end(s@),
        decreases n,
    {
        assert(s@.take(n as int).drop_last() =~= s@.take(n - 1));
        n -= 1;
    }
    assert(s@.subrange(0, n as int) =~= s@.take(n as int));
    slice_subrange(s, 0, n)
}

pub fn trim(s: &[char]) -> (r: &[char])
    ensures
        r@ == trimmed(s@),
{
    trim_end(trim_start(s))
}

/// The place of the first `c` at or after `from`, or the length.
pub open spec fn place_of(s: Seq<char>, c: char, from: int) -> int
    decreases s.len() - from,
{
    if from >= s.len() {
        s.len() as int
    } else if s[from] == c {
        from
    } else {
        place_of(s, c, from + 1)
    }
}

pub fn find(s: &[char], c: char, from: usize) -> (r: usize)
    requires
        from <= s@.len(),
    ensures
        r == place_of(s@, c, from as int),
        from <= r <= s@.len(),
{
    let n: usize = s.len();
    let mut i: usize = from;
    while i < n && s[i] != c
        invariant
            from <= i <= n == s@.len(),
            place_of(s@, c, i as int) == place_of(s@, c, from as int),
        decreases n - i,
    {
        i += 1;
    }
    i
}

/// What the place is: nothing before it is `c`, and it holds `c` itself.
pub proof fn lemma_place(s: Seq<char>, c: char, from: int)
    requires
        0 <= from <= s.len(),
    ensures
        from <= place_of(s, c, from) <= s.len(),
        forall|i: int| from <= i < place_of(s, c, from) ==> s[i] != c,
        place_of(s, c, from) < s.len() ==> s[place_of(s, c, from)] == c,
    decreases s.len() - from,
{
    if from < s.len() && s[from] != c {
        lemma_place(s, c, from + 1);
    }
}

/// The two sides of the first `c`.
pub open spec fn split_once(s: Seq<char>, c: char) -> Option<(Seq<char>, Seq<char>)> {
    let i = place_of(s, c, 0);
    if i < s.len() {
        Some((s.take(i), s.skip(i + 1)))
    } else {
        None
    }
}

/// The pieces between one `c` and the next.
pub open spec fn split(s: Seq<char>, c: char) -> Seq<Seq<char>>
    decreases s.len(),
{
    let i = place_of(s, c, 0);
    if 0 <= i < s.len() {
        seq![s.take(i)] + split(s.skip(i + 1), c)
    } else {
        seq![s]
    }
}

pub fn split_at_each<'a>(s: &'a [char], c: char) -> (pieces: Vec<&'a [char]>)
    ensures
        pieces@.len() == split(s@, c).len(),
        forall|k: int| 0 <= k < pieces@.len() ==> #[trigger] pieces@[k]@ == split(s@, c)[k],
{
    let n: usize = s.len();
    let mut pieces: Vec<&'a [char]> = Vec::new();
    let mut from: usize = 0;
    assert(s@.skip(0) =~= s@);
    loop
        invariant_except_break
            pieces@.len() + split(s@.skip(from as int), c).len() == split(s@, c).len(),
            forall|k: int|
                0 <= k < split(s@.skip(from as int), c).len() ==> #[trigger] split(
                    s@.skip(from as int),
                    c,
                )[k] == split(s@, c)[pieces@.len() + k],
        invariant
            from <= n == s@.len(),
            forall|k: int| 0 <= k < pieces@.len() ==> #[trigger] pieces@[k]@ == split(s@, c)[k],
        ensures
            pieces@.len() == split(s@, c).len(),
        decreases n - from,
    {
        let ghost rest = s@.skip(from as int);
        let i: usize = find(s, c, from);
        proof {
            lemma_place_shift(s@, c, from as int, from as int);
            assert(s@.subrange(from as int, i as int) =~= rest.take(i - from));
            assert(split(rest, c)[0] == s@.subrange(from as int, i as int)) by {
                if i >= n {
                    assert(rest.take(i - from) =~= rest);
                }
            }
        }
        pieces.push(slice_subrange(s, from, i));
        if i >= n {
            break;
        }
        proof {
            assert(rest.skip(i - from + 1) =~= s@.skip(i + 1));
            let tail = split(s@.skip(i + 1), c);
            assert(split(rest, c) == seq![rest.take(i - from)] + tail);
            assert forall|k: int| 0 <= k < tail.len() implies #[trigger] tail[k] == split(s@, c)[
            pieces@.len() + k] by {
                assert(split(rest, c)[k + 1] == tail[k]);
            }
        }
        from = i + 1;
    }
    pieces
}

/// Looking from `from` on is looking into what follows it.
pub proof fn lemma_place_shift(s: Seq<char>, c: char, by: int, from: int)
    requires
        0 <= by <= from <= s.len(),
    ensures
        place_of(s, c, from) == by + place_of(s.skip(by), c, from - by),
    decreases s.len() - from,
{
    if from < s.len() && s[from] != c {
        lemma_place_shift(s, c, by, from + 1);
    }
}

pub fn has_prefix(s: &[char], prefix: &[char]) -> (r: bool)
    ensures
        r == prefix@.is_prefix_of(s@),
{
    let n: usize = prefix.len();
    n <= s.len() && same(slice_subrange(s, 0, n), prefix)
}

/// The lines of a text. A line ends at a line feed; a carriage return right
/// before that belongs to the line end.
pub open spec fn lines(s: Seq<char>) -> Seq<Seq<char>>
    decreases s.len(),
{
    let i = place_of(s, '\n', 0);
    if s.len() == 0 {
        Seq::empty()
    } else if 0 <= i < s.len() {
        seq![without_return(s.take(i))] + lines(s.skip(i + 1))
    } else {
        seq![s]
    }
}

pub open spec fn without_return(s: Seq<char>) -> Seq<char> {
    if s.len() > 0 && s.last() == '\r' {
        s.drop_last()
    } else {
        s
    }
}

pub fn lines_of<'a>(s: &'a [char]) -> (list: Vec<&'a [char]>)
    ensures
        list@.len() == lines(s@).len(),
        forall|k: int| 0 <= k < list@.len() ==> #[trigger] list@[k]@ == lines(s@)[k],
{
    let n: usize = s.len();
    let mut list: Vec<&'a [char]> = Vec::new();
    let mut from: usize = 0;
    assert(s@.skip(0) =~= s@);
    while from < n
        invariant
            from <= n == s@.len(),
            list@.len() + lines(s@.skip(from as int)).len() == lines(s@).len(),
            forall|k: int| 0 <= k < list@.len() ==> #[trigger] list@[k]@ == lines(s@)[k],
            forall|k: int|
                0 <= k < lines(s@.skip(from as int)).len() ==> #[trigger] lines(
                    s@.skip(from as int),
                )[k] == lines(s@)[list@.len() + k],
        decreases n - from,
    {
        let ghost rest = s@.skip(from as int);
        let i: usize = find(s, '\n', from);
        proof {
            lemma_place_shift(s@, '\n', from as int, from as int);
        }
        if i >= n {
            assert(s@.subrange(from as int, n as int) =~= rest);
            assert(lines(rest)[0] == rest);
            list.push(slice_subrange(s, from, n));
            assert(s@.skip(n as int) =~= Seq::empty());
            from = n;
        } else {
            let to: usize = if i > from && s[i - 1] == '\r' { i - 1 } else { i };
            proof {
                assert(s@.subrange(from as int, to as int) =~= without_return(
                    rest.take(i - from),
                ));
                assert(rest.skip(i - from + 1) =~= s@.skip(i + 1));
                let tail = lines(s@.skip(i + 1));
                assert(lines(rest) == seq![without_return(rest.take(i - from))] + tail);
                assert(lines(rest)[0] == without_return(rest.take(i - from)));
                assert forall|k: int| 0 <= k < tail.len() implies #[trigger] tail[k] == lines(s@)[
                list@.len() + 1 + k] by {
                    assert(lines(rest)[k + 1] == tail[k]);
                }
            }
            list.push(slice_subrange(s, from, to));
            from = i + 1;
        }
    }
    list
}

pub open spec fn digit(c: char) -> bool {
    '0' as u32 <= c as u32 <= '9' as u32
}

/// The number that some digits write.
pub open spec fn value_of(s: Seq<char>) -> nat
    decreases s.len(),
{
    if s.len() == 0 {
        0
    } else {
        value_of(s.drop_last()) * 10 + (s.last() as u32 - '0' as u32) as nat
    }
}

pub open spec fn all_digits(s: Seq<char>) -> bool {
    forall|i: int| 0 <= i < s.len() ==> digit(#[trigger] s[i])
}

/// A number in decimal, `most` at the largest. A plus sign may stand before
/// the digits.
pub open spec fn number(s: Seq<char>, most: nat) -> Option<nat> {
    let digits = if s.len() > 0 && s.first() == '+' {
        s.drop_first()
    } else {
        s
    };
    if digits.len() > 0 && all_digits(digits) && value_of(digits) <= most {
        Some(value_of(digits))
    } else {
        None
    }
}

proof fn lemma_value_grows(s: Seq<char>, i: int)
    requires
        all_digits(s),
        0 <= i <= s.len(),
    ensures
        value_of(s.take(i)) <= value_of(s),
    decreases s.len() - i,
{
    if i < s.len() {
        lemma_value_grows(s, i + 1);
        assert(s.take(i + 1).drop_last() =~= s.take(i));
        assert(digit(s[i]));
    } else {
        assert(s.take(i) =~= s);
    }
}

/// Reads a decimal number of at most `most`.
pub fn parse_number(s: &[char], most: u64) -> (r: Option<u64>)
    ensures
        r == (match number(s@, most as nat) {
            Some(n) => Some(n as u64),
            None => None,
        }),
{
    let n: usize = s.len();
    let start: usize = if n > 0 && s[0] == '+' { 1 } else { 0 };
    let ghost digits = s@.skip(start as int);
    assert(start == 0 ==> digits =~= s@);
    assert(start == 1 ==> digits =~= s@.drop_first());
    if start == n {
        return None;
    }
    let mut value: u64 = 0;
    let mut i: usize = start;
    assert(digits.take(0) =~= Seq::empty());
    while i < n
        invariant
            start <= i <= n == s@.len(),
            start <= 1,
            digits == s@.skip(start as int),
            forall|k: int| 0 <= k < i - start ==> digit(#[trigger] digits[k]),
            value == value_of(digits.take(i - start)),
            value <= most,
            number(s@, most as nat) == (if digits.len() > 0 && all_digits(digits) && value_of(
                digits,
            ) <= most {
                Some(value_of(digits))
            } else {
                None
            }),
        decreases n - i,
    {
        let c: char = s[i];
        let code: u32 = c as u32;
        assert(digits[i - start] == c);
        if code < 48 || code > 57 {
            return None;
        }
        let d: u64 = (code - 48) as u64;
        proof {
            assert(digits.take(i - start + 1).drop_last() =~= digits.take(i - start));
            if all_digits(digits) {
                lemma_value_grows(digits, i - start + 1);
            }
        }
        if d > most || value > (most - d) / 10 {
            assert(value * 10 + d > most);
            return None;
        }
        value = value * 10 + d;
        i += 1;
    }
    assert(digits.take(n - start) =~= digits);
    Some(value)
}

/// The digits that write a number.
pub open spec fn decimal(n: nat) -> Seq<char>
    decreases n,
{
    let last = ('0' as u32 + (n % 10) as u32) as char;
    if n < 10 {
        seq![last]
    } else {
        decimal(n / 10).push(last)
    }
}

pub fn digit_char(d: u64) -> (c: char)
    requires
        d < 10,
    ensures
        c == ('0' as u32 + d as u32) as char,
        digit(c),
        c as u32 - '0' as u32 == d,
{
    match d {
        0 => '0',
        1 => '1',
        2 => '2',
        3 => '3',
        4 => '4',
        5 => '5',
        6 => '6',
        7 => '7',
        8 => '8',
        _ => '9',
    }
}

pub fn decimal_string(n: u64) -> (s: String)
    ensures
        s@ == decimal(n as nat),
    decreases n,
{
    let mut s = if n < 10 {
        String::new()
    } else {
        decimal_string(n / 10)
    };
    s.push(digit_char(n % 10));
    assert(n < 10 ==> s@ =~= decimal(n as nat));
    s
}

/// A number reads back as it was written.
pub proof fn decimal_reads_back(n: nat, most: nat)
    requires
        n <= most,
    ensures
        number(decimal(n), most) == Some(n),
{
    lemma_decimal(n);
}

proof fn lemma_decimal(n: nat)
    ensures
        decimal(n).len() > 0,
        all_digits(decimal(n)),
        value_of(decimal(n)) == n,
        decimal(n).first() != '+',
    decreases n,
{
    let last = ('0' as u32 + (n % 10) as u32) as char;
    assert(last as u32 == 48 + n % 10);
    assert(decimal(n).last() == last);
    if n < 10 {
        assert(decimal(n).drop_last() =~= Seq::empty());
        assert(value_of(Seq::<char>::empty()) == 0);
    } else {
        lemma_decimal(n / 10);
        assert(decimal(n).drop_last() =~= decimal(n / 10));
        assert(decimal(n).first() == decimal(n / 10).first());
    }
}

/// A number is written with digits, and with no zero in front unless it is one.
pub proof fn decimal_is_digits(n: nat)
    ensures
        decimal(n).len() > 0,
        all_digits(decimal(n)),
        n > 0 ==> decimal(n)[0] != '0',
    decreases n,
{
    lemma_decimal(n);
    if n >= 10 {
        decimal_is_digits(n / 10);
        assert(decimal(n)[0] == decimal(n / 10)[0]);
    } else {
        let last = ('0' as u32 + (n % 10) as u32) as char;
        assert(decimal(n)[0] == last);
        assert(last as u32 == 48 + n);
    }
}

/// Digits count ten times what stands before them. A plus sign may stand in
/// front, and nothing else but digits; what is too large is no number.
pub proof fn numbers_are_decimal(s: Seq<char>, c: char, most: nat)
    ensures
        number(seq!['+'] + s, most) is Some ==> number(seq!['+'] + s, most) == number(s, most),
        number(s, most) is Some && s[0] != '+' ==> number(seq!['+'] + s, most) == number(s, most),
        number(s, most) is Some ==> number(s, most)->Some_0 <= most,
        number(Seq::empty(), most) is None,
        number(s, most) is Some && '0' as u32 <= c as u32 <= '9' as u32 ==> {
            let n = 10 * number(s, most)->Some_0 + (c as u32 - '0' as u32);
            number(s.push(c), most) == if n <= most {
                Some(n as nat)
            } else {
                None
            }
        },
        s.len() > 0 && !('0' as u32 <= c as u32 <= '9' as u32) ==> number(s.push(c), most) is None,
        '0' as u32 <= c as u32 <= '9' as u32 && c as u32 - '0' as u32 <= most ==> number(
            seq![c],
            most,
        ) == Some((c as u32 - '0' as u32) as nat),
{
    let signed = seq!['+'] + s;
    assert(signed.drop_first() =~= s);
    let more = s.push(c);
    let digits = if s.len() > 0 && s.first() == '+' {
        s.drop_first()
    } else {
        s
    };
    let longer = if s.len() > 0 && s.first() == '+' {
        more.drop_first()
    } else {
        more
    };
    if s.len() > 0 {
        assert(more.first() == s.first());
        assert(longer =~= digits.push(c));
        assert(longer.drop_last() =~= digits);
        assert(longer[digits.len() as int] == c);
        if all_digits(longer) {
            assert(digit(longer[digits.len() as int]));
        }
        if all_digits(digits) && digit(c) {
            assert forall|i: int| 0 <= i < longer.len() implies digit(#[trigger] longer[i]) by {
                if i < digits.len() {
                    assert(digit(digits[i]));
                }
            }
        }
    }
    if s.len() > 0 && s[0] == '+' {
        if number(signed, most) is Some {
            assert(digit(s[0]));
        }
    }
    assert(seq![c].drop_last() =~= Seq::empty());
    assert(value_of(Seq::<char>::empty()) == 0);
}

/// Trimming takes white space off both ends and nothing else.
pub proof fn trimming_takes_white_space(s: Seq<char>) -> (from: int)
    ensures
        0 <= from <= from + trimmed(s).len() <= s.len(),
        trimmed(s) == s.subrange(from, from + trimmed(s).len()),
        forall|i: int| 0 <= i < from ==> white(#[trigger] s[i]),
        forall|i: int| from + trimmed(s).len() <= i < s.len() ==> white(#[trigger] s[i]),
        trimmed(s).len() > 0 ==> !white(trimmed(s).first()) && !white(trimmed(s).last()),
{
    let from = lemma_trimmed_start(s);
    let t = trimmed_start(s);
    lemma_trimmed_end(t);
    assert(t.take(trimmed(s).len() as int) =~= s.subrange(from, from + trimmed(s).len()));
    assert forall|i: int| from + trimmed(s).len() <= i < s.len() implies white(#[trigger] s[i]) by {
        assert(t[i - from] == s[i]);
    }
    if trimmed(s).len() > 0 {
        assert(trimmed(s).first() == t.first());
    }
    from
}

pub(crate) proof fn lemma_trimmed_start(s: Seq<char>) -> (from: int)
    ensures
        0 <= from <= s.len(),
        trimmed_start(s) == s.skip(from),
        forall|i: int| 0 <= i < from ==> white(#[trigger] s[i]),
        from < s.len() ==> !white(s[from]),
    decreases s.len(),
{
    if s.len() > 0 && white(s.first()) {
        let rest = s.drop_first();
        let k = lemma_trimmed_start(rest);
        assert(rest.skip(k) =~= s.skip(k + 1));
        assert forall|i: int| 0 <= i < k + 1 implies white(#[trigger] s[i]) by {
            if i > 0 {
                assert(white(rest[i - 1]));
            }
        }
        k + 1
    } else {
        assert(s.skip(0) =~= s);
        0
    }
}

pub(crate) proof fn lemma_trimmed_end(s: Seq<char>)
    ensures
        trimmed_end(s).len() <= s.len(),
        trimmed_end(s) == s.take(trimmed_end(s).len() as int),
        trimmed_end(s).len() > 0 ==> !white(trimmed_end(s).last()),
        forall|i: int| trimmed_end(s).len() <= i < s.len() ==> white(#[trigger] s[i]),
    decreases s.len(),
{
    if s.len() > 0 && white(s.last()) {
        let front = s.drop_last();
        lemma_trimmed_end(front);
        let n = trimmed_end(s).len() as int;
        assert(front.take(n) =~= s.take(n));
        assert forall|i: int| n <= i < s.len() implies white(#[trigger] s[i]) by {
            if i < front.len() {
                assert(white(front[i]));
            }
        }
    } else {
        assert(s.take(s.len() as int) =~= s);
    }
}

/// White space is what Unicode counts as such: 25 characters and no others.
pub proof fn white_space_is_unicode(c: char)
    ensures
        white(c) <==> seq![
            0x9u32,
            0xa,
            0xb,
            0xc,
            0xd,
            0x20,
            0x85,
            0xa0,
            0x1680,
            0x2000,
            0x2001,
            0x2002,
            0x2003,
            0x2004,
            0x2005,
            0x2006,
            0x2007,
            0x2008,
            0x2009,
            0x200a,
            0x2028,
            0x2029,
            0x202f,
            0x205f,
            0x3000,
        ].contains(c as u32),
{
    let all = seq![
        0x9u32,
        0xa,
        0xb,
        0xc,
        0xd,
        0x20,
        0x85,
        0xa0,
        0x1680,
        0x2000,
        0x2001,
        0x2002,
        0x2003,
        0x2004,
        0x2005,
        0x2006,
        0x2007,
        0x2008,
        0x2009,
        0x200a,
        0x2028,
        0x2029,
        0x202f,
        0x205f,
        0x3000,
    ];
    let n = c as u32;
    if 9 <= n <= 13 {
        assert(all[n - 9] == n);
    } else if 0x2000 <= n <= 0x200a {
        assert(all[n - 0x2000 + 9] == n);
    } else if white(c) {
        assert(all[5] == 0x20 && all[6] == 0x85 && all[7] == 0xa0 && all[8] == 0x1680);
        assert(all[20] == 0x2028 && all[21] == 0x2029 && all[22] == 0x202f && all[23] == 0x205f
            && all[24] == 0x3000);
    }
}

/// Some pieces with a character between each two.
pub open spec fn joined_by(pieces: Seq<Seq<char>>, c: char) -> Seq<char>
    decreases pieces.len(),
{
    if pieces.len() == 0 {
        Seq::empty()
    } else if pieces.len() == 1 {
        pieces[0]
    } else {
        pieces[0].push(c) + joined_by(pieces.skip(1), c)
    }
}

/// The pieces of a text, put together again, are the text, and the character
/// that they were split at is in none of them.
pub proof fn pieces_make_the_text(s: Seq<char>, c: char)
    ensures
        split(s, c).len() > 0,
        joined_by(split(s, c), c) == s,
        forall|k: int, i: int|
            0 <= k < split(s, c).len() && 0 <= i < split(s, c)[k].len() ==> #[trigger] split(
                s,
                c,
            )[k][i] != c,
    decreases s.len(),
{
    lemma_place(s, c, 0);
    let i = place_of(s, c, 0);
    let all = split(s, c);
    if i < s.len() {
        let rest = split(s.skip(i + 1), c);
        pieces_make_the_text(s.skip(i + 1), c);
        assert(all.skip(1) =~= rest);
        assert(s =~= s.take(i).push(c) + s.skip(i + 1));
        assert forall|k: int, j: int| 0 <= k < all.len() && 0 <= j < all[k].len() implies
            #[trigger] all[k][j] != c by {
            if k > 0 {
                assert(all[k] == rest[k - 1]);
                assert(rest[k - 1][j] != c);
            }
        }
    }
}

/// Some lines with a line feed behind each.
pub open spec fn lines_joined(list: Seq<Seq<char>>) -> Seq<char>
    decreases list.len(),
{
    if list.len() == 0 {
        Seq::empty()
    } else {
        list[0].push('\n') + lines_joined(list.skip(1))
    }
}

/// The lines of a text without carriage returns, put together again, are the
/// text with a line feed at its end, and no line holds one.
pub proof fn lines_make_the_text(s: Seq<char>)
    requires
        forall|i: int| 0 <= i < s.len() ==> #[trigger] s[i] != '\r',
    ensures
        lines_joined(lines(s)) == (if s.len() == 0 || s.last() == '\n' {
            s
        } else {
            s.push('\n')
        }),
        forall|k: int, i: int|
            0 <= k < lines(s).len() && 0 <= i < lines(s)[k].len() ==> #[trigger] lines(s)[k][i]
                != '\n',
    decreases s.len(),
{
    if s.len() > 0 {
        lemma_place(s, '\n', 0);
        let p = place_of(s, '\n', 0);
        let all = lines(s);
        if p < s.len() {
            let tail = s.skip(p + 1);
            assert forall|i: int| 0 <= i < tail.len() implies #[trigger] tail[i] != '\r' by {
                assert(s[i + p + 1] != '\r');
            }
            lines_make_the_text(tail);
            let first = s.take(p);
            assert(without_return(first) == first) by {
                if p > 0 {
                    assert(first.last() == s[p - 1]);
                }
            }
            assert(all.skip(1) =~= lines(tail));
            assert(all[0] == first);
            assert(first.push('\n') + tail =~= s);
            if tail.len() > 0 && tail.last() != '\n' {
                assert(first.push('\n') + tail.push('\n') =~= s.push('\n'));
            }
            assert forall|k: int, i: int| 0 <= k < all.len() && 0 <= i < all[k].len() implies
                #[trigger] all[k][i] != '\n' by {
                if k > 0 {
                    assert(all[k] == lines(tail)[k - 1]);
                    assert(lines(tail)[k - 1][i] != '\n');
                }
            }
        } else {
            assert(all == seq![s]);
            assert(all.skip(1) =~= Seq::empty());
            assert(lines_joined(Seq::empty()) == Seq::<char>::empty());
            assert(s.last() == s[s.len() - 1]);
            assert(s.push('\n') + Seq::<char>::empty() =~= s.push('\n'));
        }
    }
}

/// A carriage return right before a line feed belongs to the line end; any other
/// is part of its line.
pub proof fn returns_end_lines(line: Seq<char>, rest: Seq<char>)
    requires
        forall|i: int| 0 <= i < line.len() ==> #[trigger] line[i] != '\n',
    ensures
        lines(line.push('\r').push('\n') + rest) == seq![line] + lines(rest),
        line.len() == 0 || line.last() != '\r' ==> lines(line.push('\n') + rest) == seq![line]
            + lines(rest),
{
    let s = line.push('\r').push('\n') + rest;
    lemma_place(s, '\n', 0);
    let n = line.len() as int;
    assert(s[n + 1] == '\n');
    assert(place_of(s, '\n', 0) == n + 1) by {
        let p = place_of(s, '\n', 0);
        if p < n {
            assert(s[p] == line[p]);
        } else if p == n {
            assert(s[n] == '\r');
        }
    }
    assert(s.take(n + 1) =~= line.push('\r'));
    assert(line.push('\r').drop_last() =~= line);
    assert(s.skip(n + 2) =~= rest);
    let t = line.push('\n') + rest;
    lemma_place(t, '\n', 0);
    assert(t[n] == '\n');
    assert(place_of(t, '\n', 0) == n) by {
        let p = place_of(t, '\n', 0);
        if p < n {
            assert(t[p] == line[p]);
        }
    }
    assert(t.take(n) =~= line);
    assert(t.skip(n + 1) =~= rest);
}

} // verus!
