//! Text as sequences of characters: white space, numerals, pieces between separators.

use vstd::prelude::*;

verus! {

/// The digit `d` as a character.
pub open spec fn digit(d: nat) -> char {
    "0123456789"@[d as int]
}

/// The decimal numeral of `n`, without leading zeros.
pub open spec fn decimal(n: nat) -> Seq<char>
    decreases n,
{
    if n < 10 {
        seq![digit(n)]
    } else {
        decimal(n / 10).push(digit(n % 10))
    }
}

/// One digit as text.
fn digit_text(d: u64) -> (r: &'static str)
    requires
        d < 10,
    ensures
        r@ == seq![digit(d as nat)],
{
    let digits: &'static str = "0123456789";
    proof {
        reveal_strlit("0123456789");
    }
    let i: usize = d as usize;
    let r = digits.substring_char(i, i + 1);
    assert(r@ =~= seq![digit(d as nat)]);
    r
}

/// The decimal numeral of a number.
pub fn decimal_text(n: u64) -> (r: String)
    ensures
        r@ == decimal(n as nat),
    decreases n,
{
    if n < 10 {
        digit_text(n).to_owned()
    } else {
        let mut r: String = decimal_text(n / 10);
        r.append(digit_text(n % 10));
        assert(r@ =~= decimal(n as nat));
        r
    }
}

/// Does the character count as white space (the Unicode property of that name)?
pub open spec fn space(c: char) -> bool {
    let u = c as int;
    ||| 0x9 <= u <= 0xD
    ||| u == 0x20
    ||| u == 0x85
    ||| u == 0xA0
    ||| u == 0x1680
    ||| 0x2000 <= u <= 0x200A
    ||| u == 0x2028
    ||| u == 0x2029
    ||| u == 0x202F
    ||| u == 0x205F
    ||| u == 0x3000
}

/// The Unicode scalar value of a character.
pub fn code_point(c: char) -> (r: u32)
    ensures
        r as int == c as int,
{
    c as u32
}

/// Does the character count as white space?
pub fn is_space(c: char) -> (r: bool)
    ensures
        r == space(c),
{
    let u: u32 = c as u32;
    (0x9 <= u && u <= 0xD) || u == 0x20 || u == 0x85 || u == 0xA0 || u == 0x1680 || (0x2000 <= u
        && u <= 0x200A) || u == 0x2028 || u == 0x2029 || u == 0x202F || u == 0x205F || u == 0x3000
}

/// `s` without the white space in front.
pub open spec fn trim_start(s: Seq<char>) -> Seq<char>
    decreases s.len(),
{
    if s.len() > 0 && space(s[0]) {
        trim_start(s.drop_first())
    } else {
        s
    }
}

/// `s` without the white space behind.
pub open spec fn trim_end(s: Seq<char>) -> Seq<char>
    decreases s.len(),
{
    if s.len() > 0 && space(s.last()) {
        trim_end(s.drop_last())
    } else {
        s
    }
}

/// `s` without the white space around it.
pub open spec fn trim(s: Seq<char>) -> Seq<char> {
    trim_end(trim_start(s))
}

/// The characters of a text.
pub fn chars_of(s: &str) -> (r: Vec<char>)
    ensures
        r@ == s@,
{
    let n: usize = s.unicode_len();
    let mut r: Vec<char> = Vec::new();
    let mut i: usize = 0;
    while i < n
        invariant
            n == s@.len(),
            i <= n,
            r@ == s@.take(i as int),
        decreases n - i,
    {
        r.push(s.get_char(i));
        assert(s@.take(i + 1) =~= s@.take(i as int).push(s@[i as int]));
        i = i + 1;
    }
    assert(s@.take(n as int) =~= s@);
    r
}

/// Where the trimmed part of `cs[lo..hi]` begins and ends.
pub fn trim_range(cs: &Vec<char>, lo: usize, hi: usize) -> (r: (usize, usize))
    requires
        lo <= hi <= cs@.len(),
    ensures
        lo <= r.0 <= r.1 <= hi,
        cs@.subrange(r.0 as int, r.1 as int) == trim(cs@.subrange(lo as int, hi as int)),
{
    let mut a: usize = lo;
    while a < hi && is_space(cs[a])
        invariant
            lo <= a <= hi <= cs@.len(),
            trim_start(cs@.subrange(a as int, hi as int)) == trim_start(
                cs@.subrange(lo as int, hi as int),
            ),
        decreases hi - a,
    {
        assert(cs@.subrange(a as int, hi as int).drop_first() =~= cs@.subrange(a + 1, hi as int));
        a = a + 1;
    }
    let mut b: usize = hi;
    while b > a && is_space(cs[b - 1])
        invariant
            lo <= a <= b <= hi <= cs@.len(),
            trim_end(cs@.subrange(a as int, b as int)) == trim_end(
                cs@.subrange(a as int, hi as int),
            ),
        decreases b,
    {
        assert(cs@.subrange(a as int, b as int).drop_last() =~= cs@.subrange(a as int, b - 1));
        b = b - 1;
    }
    (a, b)
}

/// The pieces of `s` between the occurrences of `sep`; there is always at least one.
pub open spec fn split(s: Seq<char>, sep: char) -> Seq<Seq<char>>
    decreases s.len(),
{
    if s.len() == 0 {
        seq![s]
    } else {
        let before = split(s.drop_last(), sep);
        if s.last() == sep {
            before.push(Seq::empty())
        } else {
            before.update(before.len() - 1, before.last().push(s.last()))
        }
    }
}

/// The texts joined by a separator.
pub open spec fn join(parts: Seq<Seq<char>>, sep: Seq<char>) -> Seq<char>
    decreases parts.len(),
{
    if parts.len() == 0 {
        Seq::empty()
    } else if parts.len() == 1 {
        parts[0]
    } else {
        join(parts.drop_last(), sep) + sep + parts.last()
    }
}

/// The views of a list of texts.
pub open spec fn texts(v: Seq<String>) -> Seq<Seq<char>> {
    v.map_values(|s: String| s@)
}

/// Splitting gives at least one piece.
pub proof fn split_nonempty(s: Seq<char>, sep: char)
    ensures
        split(s, sep).len() > 0,
    decreases s.len(),
{
    if s.len() > 0 {
        split_nonempty(s.drop_last(), sep);
    }
}

/// No piece holds the separator, and the pieces joined by it give the text back.
pub proof fn split_then_join(s: Seq<char>, sep: char)
    ensures
        join(split(s, sep), seq![sep]) == s,
        forall|i: int| 0 <= i < split(s, sep).len() ==> !(#[trigger] split(s, sep)[i]).contains(
            sep,
        ),
    decreases s.len(),
{
    if s.len() == 0 {
        assert(split(s, sep) =~= seq![s]);
    } else {
        let before = split(s.drop_last(), sep);
        split_nonempty(s.drop_last(), sep);
        split_then_join(s.drop_last(), sep);
        let now = split(s, sep);
        assert(s =~= s.drop_last().push(s.last()));
        if s.last() == sep {
            assert(now.drop_last() =~= before);
            assert(join(now, seq![sep]) =~= s);
        } else {
            assert(now.drop_last() =~= before.drop_last());
            if before.len() == 1 {
                assert(join(now, seq![sep]) =~= s);
            } else {
                assert(join(now, seq![sep]) =~= s);
            }
            assert forall|i: int| 0 <= i < now.len() implies !(#[trigger] now[i]).contains(
                sep,
            ) by {
                if i == now.len() - 1 {
                    assert(!before.last().contains(sep));
                    let t = before.last().push(s.last());
                    if t.contains(sep) {
                        let k = choose|k: int| 0 <= k < t.len() && t[k] == sep;
                        assert(k < before.last().len());
                        assert(before.last()[k] == sep);
                    }
                } else {
                    assert(now[i] == before[i]);
                }
            }
        }
    }
}

/// The bounds of the pieces of `cs[lo..hi]` between the occurrences of `sep`.
pub fn split_ranges(cs: &Vec<char>, lo: usize, hi: usize, sep: char) -> (r: Vec<(usize, usize)>)
    requires
        lo <= hi <= cs@.len(),
    ensures
        r@.len() == split(cs@.subrange(lo as int, hi as int), sep).len(),
        forall|k: int|
            #![trigger r@[k]]
            0 <= k < r@.len() ==> lo <= r@[k].0 <= r@[k].1 <= hi && cs@.subrange(
                r@[k].0 as int,
                r@[k].1 as int,
            ) == split(cs@.subrange(lo as int, hi as int), sep)[k],
{
    let mut r: Vec<(usize, usize)> = Vec::new();
    let mut start: usize = lo;
    let mut i: usize = lo;
    assert(split(cs@.subrange(lo as int, lo as int), sep) =~= seq![
        cs@.subrange(lo as int, lo as int),
    ]);
    while i < hi
        invariant
            lo <= start <= i <= hi <= cs@.len(),
            r@.len() + 1 == split(cs@.subrange(lo as int, i as int), sep).len(),
            forall|k: int|
                #![trigger r@[k]]
                0 <= k < r@.len() ==> lo <= r@[k].0 <= r@[k].1 <= hi && cs@.subrange(
                    r@[k].0 as int,
                    r@[k].1 as int,
                ) == split(cs@.subrange(lo as int, i as int), sep)[k],
            split(cs@.subrange(lo as int, i as int), sep).last() == cs@.subrange(
                start as int,
                i as int,
            ),
        decreases hi - i,
    {
        let ghost before = split(cs@.subrange(lo as int, i as int), sep);
        let ghost now = split(cs@.subrange(lo as int, i + 1), sep);
        assert(cs@.subrange(lo as int, i + 1).drop_last() =~= cs@.subrange(lo as int, i as int));
        if cs[i] == sep {
            assert(now =~= before.push(Seq::empty()));
            r.push((start, i));
            start = i + 1;
            assert(cs@.subrange(i + 1, i + 1) =~= Seq::<char>::empty());
        } else {
            assert(cs@.subrange(start as int, i + 1) =~= cs@.subrange(start as int, i as int).push(
                cs@[i as int],
            ));
        }
        i = i + 1;
    }
    r.push((start, hi));
    r
}

/// The value of a run of decimal digits.
pub open spec fn digits_value(s: Seq<char>) -> nat
    decreases s.len(),
{
    if s.len() == 0 {
        0
    } else {
        digits_value(s.drop_last()) * 10 + (s.last() as int - 48) as nat
    }
}

/// Is `s` a non-empty run of decimal digits?
pub open spec fn all_digits(s: Seq<char>) -> bool {
    s.len() > 0 && forall|i: int| 0 <= i < s.len() ==> 48 <= (#[trigger] s[i]) as int <= 57
}

/// The digits of a numeral: a plus sign in front is passed over.
pub open spec fn unsigned_digits(s: Seq<char>) -> Seq<char> {
    if s.len() > 0 && s[0] == '+' {
        s.drop_first()
    } else {
        s
    }
}

/// The number that an unsigned decimal numeral stands for: digits, with leading zeros as one
/// likes, and perhaps a plus sign in front.
pub open spec fn numeral(s: Seq<char>) -> Option<nat> {
    if all_digits(unsigned_digits(s)) {
        Some(digits_value(unsigned_digits(s)))
    } else {
        None
    }
}

/// The number that `cs[lo..hi]` stands for, if it is a numeral of at most one.
pub fn parse_bit(cs: &Vec<char>, lo: usize, hi: usize) -> (r: Option<bool>)
    requires
        lo <= hi <= cs@.len(),
    ensures
        r == match numeral(cs@.subrange(lo as int, hi as int)) {
            Some(n) => if n <= 1 {
                Some(n == 1)
            } else {
                None
            },
            None => None,
        },
{
    let mut a: usize = lo;
    let ghost whole = cs@.subrange(lo as int, hi as int);
    if lo < hi && cs[lo] == '+' {
        a = lo + 1;
        assert(whole.drop_first() =~= cs@.subrange(lo + 1, hi as int));
    }
    let ghost ds = cs@.subrange(a as int, hi as int);
    assert(ds == unsigned_digits(whole));
    if a == hi {
        return None;
    }
    let mut i: usize = a;
    let mut value: u8 = 0;
    let mut large: bool = false;
    while i < hi
        invariant
            a <= i <= hi <= cs@.len(),
            a < hi,
            ds == cs@.subrange(a as int, hi as int),
            ds == unsigned_digits(whole),
            whole == cs@.subrange(lo as int, hi as int),
            forall|k: int| 0 <= k < i - a ==> 48 <= (#[trigger] ds[k]) as int <= 57,
            large ==> digits_value(cs@.subrange(a as int, i as int)) > 1,
            !large ==> digits_value(cs@.subrange(a as int, i as int)) == value && value <= 1,
        decreases hi - i,
    {
        let u: u32 = code_point(cs[i]);
        assert(ds[i - a] == cs@[i as int]);
        if u < 48 || u > 57 {
            assert(!all_digits(ds));
            return None;
        }
        assert(cs@.subrange(a as int, i + 1).drop_last() =~= cs@.subrange(a as int, i as int));
        let d: u32 = u - 48;
        if !large {
            if value == 1 || d > 1 {
                large = true;
            } else {
                value = d as u8;
            }
        }
        i = i + 1;
    }
    assert(all_digits(ds)) by {
        assert forall|k: int| 0 <= k < ds.len() implies 48 <= (#[trigger] ds[k]) as int <= 57 by {}
    }
    if large {
        None
    } else {
        Some(value == 1)
    }
}

/// Does `needle` stand at position `i` of `s`?
pub open spec fn occurs_at(s: Seq<char>, needle: Seq<char>, i: int) -> bool {
    0 <= i && i + needle.len() <= s.len() && s.subrange(i, i + needle.len()) == needle
}

/// Where `needle` first occurs in `s`.
pub open spec fn first_occurrence(s: Seq<char>, needle: Seq<char>, at: Option<int>) -> bool {
    match at {
        Some(i) => occurs_at(s, needle, i) && forall|j: int| 0 <= j < i ==> !occurs_at(s, needle, j),
        None => forall|j: int| !occurs_at(s, needle, j),
    }
}

/// Does `needle` stand at position `i`?
fn stands_at(cs: &Vec<char>, needle: &Vec<char>, i: usize) -> (r: bool)
    requires
        i + needle@.len() <= cs@.len(),
    ensures
        r == occurs_at(cs@, needle@, i as int),
{
    let mut k: usize = 0;
    let total: usize = cs.len();
    let ghost part = cs@.subrange(i as int, i + needle@.len());
    while k < needle.len()
        invariant
            k <= needle@.len(),
            i + needle@.len() <= cs@.len(),
            total == cs@.len(),
            part == cs@.subrange(i as int, i + needle@.len()),
            forall|j: int| 0 <= j < k ==> part[j] == needle@[j],
        decreases needle@.len() - k,
    {
        if cs[i + k] != needle[k] {
            assert(part[k as int] != needle@[k as int]);
            return false;
        }
        k = k + 1;
    }
    assert(part =~= needle@);
    true
}

/// The position of the first occurrence of a text in another.
pub fn find(cs: &Vec<char>, needle: &Vec<char>) -> (r: Option<usize>)
    ensures
        first_occurrence(
            cs@,
            needle@,
            match r {
                Some(i) => Some(i as int),
                None => None,
            },
        ),
{
    if needle.len() > cs.len() {
        return None;
    }
    let last: usize = cs.len() - needle.len();
    let mut i: usize = 0;
    while i < last
        invariant
            last + needle@.len() == cs@.len(),
            i <= last,
            forall|j: int| 0 <= j < i ==> !occurs_at(cs@, needle@, j),
        decreases last - i,
    {
        if stands_at(cs, needle, i) {
            return Some(i);
        }
        i = i + 1;
    }
    if stands_at(cs, needle, last) {
        Some(last)
    } else {
        None
    }
}

/// The parts joined by a separator.
pub fn join_text(parts: &Vec<String>, sep: &str) -> (r: String)
    ensures
        r@ == join(texts(parts@), sep@),
{
    let mut r: String = String::new();
    let mut i: usize = 0;
    let ghost all = texts(parts@);
    while i < parts.len()
        invariant
            i <= parts@.len(),
            all == texts(parts@),
            r@ == join(all.take(i as int), sep@),
        decreases parts@.len() - i,
    {
        if i > 0 {
            r.append(sep);
        }
        r.append(parts[i].as_str());
        proof {
            let next = all.take(i + 1);
            assert(next.drop_last() =~= all.take(i as int));
            assert(next.last() == parts@[i as int]@);
            if i == 0 {
                assert(all.take(0) =~= Seq::<Seq<char>>::empty());
                assert(r@ =~= next[0]);
            } else {
                assert(r@ =~= join(next, sep@));
            }
        }
        i = i + 1;
    }
    assert(all.take(parts@.len() as int) =~= all);
    r
}

/// A span of whole seconds as text; none at all is counted in nanoseconds.
pub open spec fn seconds(n: nat) -> Seq<char> {
    if n == 0 {
        "0ns"@
    } else {
        decimal(n) + "s"@
    }
}

/// A span of whole seconds as text; none at all is counted in nanoseconds.
pub fn seconds_text(n: u64) -> (r: String)
    ensures
        r@ == seconds(n as nat),
{
    if n == 0 {
        return "0ns".to_owned();
    }
    let mut r: String = decimal_text(n);
    r.append("s");
    r
}

/// Blanks, tabs and line ends are space; no visible character of ASCII is.
pub proof fn ascii_spaces(c: char)
    ensures
        c as int == 0x20 || 0x9 <= c as int <= 0xD ==> space(c),
        0x21 <= c as int <= 0x7E || c as int <= 0x8 || 0xE <= c as int <= 0x1F ==> !space(c),
{
}

/// Leading spaces do not count.
proof fn leading_spaces(a: Seq<char>, s: Seq<char>)
    requires
        forall|i: int| 0 <= i < a.len() ==> space(#[trigger] a[i]),
    ensures
        trim_start(a + s) == trim_start(s),
    decreases a.len(),
{
    if a.len() == 0 {
        assert(a + s =~= s);
    } else {
        assert((a + s).drop_first() =~= a.drop_first() + s);
        assert(space((a + s)[0])) by {
            assert((a + s)[0] == a[0]);
        }
        assert forall|i: int| 0 <= i < a.drop_first().len() implies space(
            #[trigger] a.drop_first()[i],
        ) by {
            assert(a.drop_first()[i] == a[i + 1]);
        }
        leading_spaces(a.drop_first(), s);
    }
}

/// Trailing spaces do not count.
proof fn trailing_spaces(s: Seq<char>, b: Seq<char>)
    requires
        forall|i: int| 0 <= i < b.len() ==> space(#[trigger] b[i]),
    ensures
        trim_end(s + b) == trim_end(s),
    decreases b.len(),
{
    if b.len() == 0 {
        assert(s + b =~= s);
    } else {
        assert((s + b).drop_last() =~= s + b.drop_last());
        assert(space((s + b).last())) by {
            assert((s + b).last() == b[b.len() - 1]);
        }
        assert forall|i: int| 0 <= i < b.drop_last().len() implies space(
            #[trigger] b.drop_last()[i],
        ) by {
            assert(b.drop_last()[i] == b[i]);
        }
        trailing_spaces(s, b.drop_last());
    }
}

/// Trimming takes the spaces off both ends, and nothing else.
pub proof fn trimming_takes_spaces_off(a: Seq<char>, s: Seq<char>, b: Seq<char>)
    requires
        forall|i: int| 0 <= i < a.len() ==> space(#[trigger] a[i]),
        forall|i: int| 0 <= i < b.len() ==> space(#[trigger] b[i]),
        s.len() > 0 ==> !space(s[0]) && !space(s.last()),
    ensures
        trim(a + s + b) == s,
{
    assert(a + s + b =~= a + (s + b));
    leading_spaces(a, s + b);
    if s.len() == 0 {
        assert(s + b =~= b + s);
        leading_spaces(b, s);
        assert(trim_start(s) =~= s);
        assert(trim_end(s) =~= s);
    } else {
        assert((s + b)[0] == s[0]);
        assert(trim_start(s + b) == s + b);
        trailing_spaces(s, b);
        assert(trim_end(s) == s);
    }
}

/// The digit of a number below ten is the character that many places behind `'0'`.
proof fn digit_value(d: nat)
    requires
        d < 10,
    ensures
        digit(d) as int == 48 + d,
{
    reveal_strlit("0123456789");
}

/// A number written in decimal reads back as itself. It has no leading zero but for 0 itself.
pub proof fn decimals_read_back(n: nat)
    ensures
        all_digits(decimal(n)),
        digits_value(decimal(n)) == n,
        numeral(decimal(n)) == Some(n),
        n > 0 ==> decimal(n)[0] != '0',
        decimal(n).len() == 1 <==> n < 10,
    decreases n,
{
    reveal_with_fuel(digits_value, 2);
    if n < 10 {
        digit_value(n);
        assert(decimal(n).drop_last() =~= Seq::<char>::empty());
    } else {
        decimals_read_back(n / 10);
        digit_value(n % 10);
        assert(decimal(n).drop_last() =~= decimal(n / 10));
        assert(decimal(n)[0] == decimal(n / 10)[0]);
    }
    assert(decimal(n)[0] as int >= 48);
    assert(unsigned_digits(decimal(n)) == decimal(n));
}

/// A digit more makes a numeral ten times as large and adds its value, a sign in front changes
/// nothing, and whatever holds another character is no numeral.
pub proof fn numerals_go_by_digits(s: Seq<char>, c: char)
    requires
        all_digits(s),
    ensures
        48 <= c as int <= 57 ==> numeral(s.push(c)) == Some(
            (numeral(s)->0 * 10 + (c as int - 48)) as nat,
        ),
        !(48 <= c as int <= 57) ==> numeral(s.push(c)) is None,
        numeral(s) is Some,
        numeral(seq!['+'] + s) == numeral(s),
        48 <= c as int <= 57 ==> numeral(seq![c]) == Some((c as int - 48) as nat),
        !(48 <= c as int <= 57) ==> numeral(seq![c]) is None,
        numeral(Seq::<char>::empty()) is None,
{
    reveal_with_fuel(digits_value, 2);
    assert(s[0] as int >= 48);
    assert(unsigned_digits(s) == s);
    assert(unsigned_digits(s.push(c)) == s.push(c));
    assert(s.push(c).drop_last() =~= s);
    if 48 <= c as int <= 57 {
        assert(all_digits(s.push(c)));
    } else {
        assert(s.push(c)[s.len() as int] == c);
    }
    assert((seq!['+'] + s).drop_first() =~= s);
    assert(seq![c].drop_last() =~= Seq::<char>::empty());
    assert(seq![c].drop_first() =~= Seq::<char>::empty());
    if 48 <= c as int <= 57 {
        assert(all_digits(seq![c]));
        assert(unsigned_digits(seq![c]) == seq![c]);
    } else {
        assert(seq![c][0] == c);
    }
}

/// Joining puts the separator between the parts.
pub proof fn joining_separates(parts: Seq<Seq<char>>, p: Seq<char>, sep: Seq<char>)
    ensures
        join(Seq::<Seq<char>>::empty(), sep) == Seq::<char>::empty(),
        join(seq![p], sep) == p,
        parts.len() > 0 ==> join(parts.push(p), sep) == join(parts, sep) + sep + p,
{
    assert(parts.push(p).drop_last() =~= parts);
}

/// A text that ends in a separator and something without it splits into the parts before and that.
pub proof fn splitting_goes_by_separators(a: Seq<char>, b: Seq<char>, sep: char)
    requires
        !b.contains(sep),
    ensures
        split(a + seq![sep] + b, sep) == split(a, sep).push(b),
        split(b, sep) == seq![b],
    decreases b.len(),
{
    let all = a + seq![sep] + b;
    if b.len() == 0 {
        assert(all.drop_last() =~= a);
        assert(all.last() == sep);
        assert(b =~= Seq::<char>::empty());
        assert(split(b, sep) =~= seq![b]);
    } else {
        let front = b.drop_last();
        assert forall|i: int| 0 <= i < front.len() implies front[i] != sep by {
            assert(b[i] == front[i]);
            assert(b.contains(b[i]));
        }
        splitting_goes_by_separators(a, front, sep);
        assert(all.drop_last() =~= a + seq![sep] + front);
        assert(b.contains(b[b.len() - 1]));
        assert(all.last() == b.last());
        assert(front.push(b.last()) =~= b);
        assert(split(all, sep) =~= split(a, sep).push(b));
        assert(split(b, sep) =~= seq![b]);
    }
}

/// A text occurs where it stands between some text before and some behind, and the first place where
/// it occurs is only one.
pub proof fn occurrences(
    before: Seq<char>,
    needle: Seq<char>,
    behind: Seq<char>,
    a: Option<int>,
    b: Option<int>,
)
    ensures
        occurs_at(before + needle + behind, needle, before.len() as int),
        first_occurrence(before + needle + behind, needle, a) ==> a is Some && a->0 <= before.len(),
        first_occurrence(before + needle + behind, needle, a) && first_occurrence(
            before + needle + behind,
            needle,
            b,
        ) ==> a == b,
{
    let s = before + needle + behind;
    assert(s.subrange(before.len() as int, before.len() as int + needle.len()) =~= needle);
}

/// A time in seconds is its number and the letter s.
pub proof fn seconds_read_back(n: nat)
    ensures
        n > 0 ==> seconds(n).len() > 1 && seconds(n).last() == 's' && numeral(
            seconds(n).drop_last(),
        ) == Some(n),
{
    reveal_strlit("s");
    decimals_read_back(n);
    if n > 0 {
        assert(seconds(n).drop_last() =~= decimal(n));
    }
}

/// The characters of a list of texts are those of each text in its place.
pub proof fn texts_keep_every_element(v: Seq<String>, i: int)
    ensures
        texts(v).len() == v.len(),
        0 <= i < v.len() ==> texts(v)[i] == v[i]@,
{
}

} // verus!
