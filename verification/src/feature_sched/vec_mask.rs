//! The feature mask: which features of the schema take part.

use vstd::prelude::*;

use crate::text::{
    chars_of, decimal, decimal_text, digits_value, join, numeral, parse_bit, space, split,
    split_ranges, trim, trim_range,
};

verus! {

/// Why a mask is refused.
pub ghost enum MaskFault {
    /// An element of a list is not 0 or 1.
    Element,
    /// A character of a bit string is not 0 or 1.
    Character(char),
    /// The mask has this many entries, not one for each feature.
    Length(nat),
    /// No feature is enabled.
    AllZero,
}

/// Is the text in square brackets?
pub open spec fn bracketed(t: Seq<char>) -> bool {
    t.len() >= 2 && t[0] == '[' && t.last() == ']'
}

/// An element of a list: a numeral of 0 or 1, with white space around it as one likes.
pub open spec fn element_bit(s: Seq<char>) -> Option<bool> {
    match numeral(trim(s)) {
        Some(n) => if n <= 1 {
            Some(n == 1)
        } else {
            None
        },
        None => None,
    }
}

/// The entries of a list whose elements are separated by commas.
pub open spec fn list_bits(s: Seq<char>) -> Result<Seq<bool>, MaskFault> {
    let parts = split(s, ',');
    if forall|i: int| 0 <= i < parts.len() ==> element_bit(#[trigger] parts[i]) is Some {
        Ok(Seq::new(parts.len(), |i: int| element_bit(parts[i])->0))
    } else {
        Err(MaskFault::Element)
    }
}

/// Is the character a bit?
pub open spec fn bit_char(c: char) -> bool {
    c == '0' || c == '1'
}

/// The position of the first character of `s` that is not a bit, or the length of `s`.
pub open spec fn bits_end(s: Seq<char>) -> nat
    decreases s.len(),
{
    if s.len() > 0 && bit_char(s[0]) {
        1 + bits_end(s.drop_first())
    } else {
        0
    }
}

/// The entries of a bit string.
pub open spec fn string_bits(s: Seq<char>) -> Result<Seq<bool>, MaskFault> {
    if bits_end(s) == s.len() {
        Ok(Seq::new(s.len(), |i: int| s[i] == '1'))
    } else {
        Err(MaskFault::Character(s[bits_end(s) as int]))
    }
}

/// The entries of a mask in any of its three formats: `[1,0]`, `1,0` and `10`.
pub open spec fn mask_bits(raw: Seq<char>) -> Result<Seq<bool>, MaskFault> {
    let t = trim(raw);
    if bracketed(t) {
        list_bits(t.subrange(1, t.len() - 1))
    } else if t.contains(',') {
        list_bits(t)
    } else {
        string_bits(t)
    }
}

/// The mask that a text stands for, over a schema of `n` features: as many entries as there are
/// features, and at least one of them set.
pub open spec fn mask_of(raw: Seq<char>, n: nat) -> Result<Seq<bool>, MaskFault> {
    match mask_bits(raw) {
        Err(f) => Err(f),
        Ok(bits) => if bits.len() != n {
            Err(MaskFault::Length(bits.len()))
        } else if !bits.contains(true) {
            Err(MaskFault::AllZero)
        } else {
            Ok(bits)
        },
    }
}

/// The words of a refusal.
pub open spec fn mask_fault_text(f: MaskFault, n: nat) -> Seq<char> {
    match f {
        MaskFault::Element => "BOFuzz vec-mask error: non-binary value in mask"@,
        MaskFault::Character(c) => "BOFuzz vec-mask error: non-binary value '"@ + seq![c]
            + "' in mask"@,
        MaskFault::Length(k) => "BOFuzz vec-mask error: mask length "@ + decimal(k)
            + " != schema feature length "@ + decimal(n) + " from features_schema.json"@,
        MaskFault::AllZero => "BOFuzz vec-mask error: all-zero mask disables every schema feature"@,
    }
}

/// The entries of a comma-separated list; `None` where an element is not a bit.
fn parse_list(cs: &Vec<char>, lo: usize, hi: usize) -> (r: Option<Vec<bool>>)
    requires
        lo <= hi <= cs@.len(),
    ensures
        match r {
            Some(bits) => list_bits(cs@.subrange(lo as int, hi as int)) == Ok::<
                Seq<bool>,
                MaskFault,
            >(bits@),
            None => list_bits(cs@.subrange(lo as int, hi as int)) == Err::<Seq<bool>, MaskFault>(
                MaskFault::Element,
            ),
        },
{
    let parts: Vec<(usize, usize)> = split_ranges(cs, lo, hi, ',');
    let ghost pieces = split(cs@.subrange(lo as int, hi as int), ',');
    let mut bits: Vec<bool> = Vec::new();
    let mut i: usize = 0;
    while i < parts.len()
        invariant
            i <= parts@.len(),
            hi <= cs@.len(),
            parts@.len() == pieces.len(),
            pieces == split(cs@.subrange(lo as int, hi as int), ','),
            forall|k: int|
                #![trigger parts@[k]]
                0 <= k < parts@.len() ==> lo <= parts@[k].0 <= parts@[k].1 <= hi && cs@.subrange(
                    parts@[k].0 as int,
                    parts@[k].1 as int,
                ) == pieces[k],
            bits@.len() == i,
            forall|k: int|
                0 <= k < i ==> element_bit(#[trigger] pieces[k]) == Some(bits@[k]),
        decreases parts@.len() - i,
    {
        let part: (usize, usize) = parts[i];
        let inner: (usize, usize) = trim_range(cs, part.0, part.1);
        match parse_bit(cs, inner.0, inner.1) {
            Some(b) => {
                bits.push(b);
            },
            None => {
                assert(element_bit(pieces[i as int]) is None);
                return None;
            },
        }
        i = i + 1;
    }
    assert(bits@ =~= Seq::new(pieces.len(), |k: int| element_bit(pieces[k])->0));
    Some(bits)
}

/// The end of the run of bits with which a text begins.
proof fn bits_end_is(s: Seq<char>, n: nat)
    requires
        n <= s.len(),
        forall|i: int| 0 <= i < n ==> bit_char(#[trigger] s[i]),
        n < s.len() ==> !bit_char(s[n as int]),
    ensures
        bits_end(s) == n,
    decreases n,
{
    if n > 0 {
        let rest = s.drop_first();
        assert forall|i: int| 0 <= i < n - 1 implies bit_char(#[trigger] rest[i]) by {
            assert(rest[i] == s[i + 1]);
        }
        bits_end_is(rest, (n - 1) as nat);
    }
}

/// The entries of a bit string; where a character is not a bit, its position.
fn parse_string(cs: &Vec<char>, lo: usize, hi: usize) -> (r: Result<Vec<bool>, usize>)
    requires
        lo <= hi <= cs@.len(),
    ensures
        match r {
            Ok(bits) => string_bits(cs@.subrange(lo as int, hi as int)) == Ok::<
                Seq<bool>,
                MaskFault,
            >(bits@),
            Err(p) => lo <= p < hi && string_bits(cs@.subrange(lo as int, hi as int)) == Err::<
                Seq<bool>,
                MaskFault,
            >(MaskFault::Character(cs@[p as int])),
        },
{
    let ghost t = cs@.subrange(lo as int, hi as int);
    let mut bits: Vec<bool> = Vec::new();
    let mut i: usize = lo;
    while i < hi
        invariant
            lo <= i <= hi <= cs@.len(),
            t == cs@.subrange(lo as int, hi as int),
            bits@.len() == i - lo,
            forall|k: int|
                0 <= k < i - lo ==> bit_char(#[trigger] t[k]) && bits@[k] == (t[k] == '1'),
        decreases hi - i,
    {
        let c: char = cs[i];
        assert(t[i - lo] == c);
        if c == '0' {
            bits.push(false);
        } else if c == '1' {
            bits.push(true);
        } else {
            proof {
                bits_end_is(t, (i - lo) as nat);
            }
            return Err(i);
        }
        i = i + 1;
    }
    proof {
        bits_end_is(t, t.len());
        assert(bits@ =~= Seq::new(t.len(), |k: int| t[k] == '1'));
    }
    Ok(bits)
}

/// Does the list hold `true`?
fn any_set(bits: &Vec<bool>) -> (r: bool)
    ensures
        r == bits@.contains(true),
{
    let mut i: usize = 0;
    while i < bits.len()
        invariant
            i <= bits@.len(),
            forall|k: int| 0 <= k < i ==> !bits@[k],
        decreases bits@.len() - i,
    {
        if bits[i] {
            assert(bits@[i as int]);
            return true;
        }
        i = i + 1;
    }
    false
}

/// Reads a feature mask over a schema of `schema_len` features.
///
/// Accepted are a bit string (`1100`), a list (`1,1,0,0`) and a list in brackets
/// (`[1,1,0,0]`). The mask has one entry for each feature, and an all-zero mask is refused.
pub fn parse_vec_mask(raw: &str, schema_len: usize) -> (r: Result<Vec<bool>, String>)
    ensures
        match r {
            Ok(mask) => mask_of(raw@, schema_len as nat) == Ok::<Seq<bool>, MaskFault>(mask@),
            Err(e) => mask_of(raw@, schema_len as nat) is Err && e@ == mask_fault_text(
                mask_of(raw@, schema_len as nat)->Err_0,
                schema_len as nat,
            ),
        },
        r matches Ok(mask) ==> mask@.len() == schema_len && mask@.contains(true),
{
    let cs: Vec<char> = chars_of(raw);
    let bounds: (usize, usize) = trim_range(&cs, 0, cs.len());
    let lo: usize = bounds.0;
    let hi: usize = bounds.1;
    let ghost t = trim(raw@);
    assert(cs@.subrange(0, cs@.len() as int) =~= raw@);
    assert(cs@.subrange(lo as int, hi as int) == t);
    let values: Vec<bool>;
    if hi - lo >= 2 && cs[lo] == '[' && cs[hi - 1] == ']' {
        assert(t[0] == '[' && t.last() == ']');
        assert(cs@.subrange(lo + 1, hi - 1) =~= t.subrange(1, t.len() - 1));
        match parse_list(&cs, lo + 1, hi - 1) {
            Some(bits) => {
                values = bits;
            },
            None => {
                return Err("BOFuzz vec-mask error: non-binary value in mask".to_owned());
            },
        }
    } else {
        assert(!bracketed(t)) by {
            if t.len() >= 2 {
                assert(t[0] == cs@[lo as int] && t.last() == cs@[hi - 1]);
            }
        }
        let mut comma: bool = false;
        let mut i: usize = lo;
        while i < hi
            invariant
                lo <= i <= hi <= cs@.len(),
                t == cs@.subrange(lo as int, hi as int),
                comma ==> t.contains(','),
                !comma ==> forall|k: int| 0 <= k < i - lo ==> t[k] != ',',
            decreases hi - i,
        {
            assert(t[i - lo] == cs@[i as int]);
            if cs[i] == ',' {
                comma = true;
            }
            i = i + 1;
        }
        if comma {
            match parse_list(&cs, lo, hi) {
                Some(bits) => {
                    values = bits;
                },
                None => {
                    return Err("BOFuzz vec-mask error: non-binary value in mask".to_owned());
                },
            }
        } else {
            assert(!t.contains(','));
            match parse_string(&cs, lo, hi) {
                Ok(bits) => {
                    values = bits;
                },
                Err(p) => {
                    let mut e: String = "BOFuzz vec-mask error: non-binary value '".to_owned();
                    e.append(raw.substring_char(p, p + 1));
                    e.append("' in mask");
                    proof {
                        assert(raw@.subrange(p as int, p + 1) =~= seq![cs@[p as int]]);
                        assert(e@ =~= mask_fault_text(
                            MaskFault::Character(cs@[p as int]),
                            schema_len as nat,
                        ));
                    }
                    return Err(e);
                },
            }
        }
    }
    if values.len() != schema_len {
        let mut e: String = "BOFuzz vec-mask error: mask length ".to_owned();
        e.append(decimal_text(values.len() as u64).as_str());
        e.append(" != schema feature length ");
        e.append(decimal_text(schema_len as u64).as_str());
        e.append(" from features_schema.json");
        return Err(e);
    }
    if !any_set(&values) {
        return Err(
            "BOFuzz vec-mask error: all-zero mask disables every schema feature".to_owned(),
        );
    }
    Ok(values)
}

/// The mask of a run: the one that is given, or all features where none is.
pub open spec fn chosen_mask(raw: Option<Seq<char>>, n: nat) -> Result<Seq<bool>, MaskFault> {
    match raw {
        Some(text) => mask_of(text, n),
        None => Ok(Seq::new(n, |i: int| true)),
    }
}

/// The mask of a run: the one that is given, or all features where none is.
pub fn mask_or_all(raw: Option<&str>, schema_len: usize) -> (r: Result<Vec<bool>, String>)
    ensures
        ({
            let wanted = chosen_mask(
                match raw {
                    Some(text) => Some(text@),
                    None => None,
                },
                schema_len as nat,
            );
            match r {
                Ok(mask) => wanted == Ok::<Seq<bool>, MaskFault>(mask@),
                Err(e) => wanted is Err && e@ == mask_fault_text(
                    wanted->Err_0,
                    schema_len as nat,
                ),
            }
        }),
{
    match raw {
        Some(text) => parse_vec_mask(text, schema_len),
        None => {
            let mut all: Vec<bool> = Vec::new();
            all.resize(schema_len, true);
            assert(all@ =~= Seq::new(schema_len as nat, |i: int| true));
            Ok(all)
        },
    }
}

/// A list in brackets stands for the same mask as the list without them.
pub proof fn brackets_do_not_matter(list: Seq<char>, n: nat)
    requires
        list.contains(','),
        trim(list) == list,
        !bracketed(list),
    ensures
        mask_of(seq!['['] + list + seq![']'], n) == mask_of(list, n),
{
    let wrapped = seq!['['] + list + seq![']'];
    assert(crate::text::trim_start(wrapped) == wrapped) by {
        assert(wrapped[0] == '[');
    }
    assert(crate::text::trim_end(wrapped) == wrapped) by {
        assert(wrapped.last() == ']');
    }
    assert(bracketed(wrapped));
    assert(wrapped.subrange(1, wrapped.len() - 1) =~= list);
}

/// The character of an entry.
pub open spec fn bit_of(b: bool) -> char {
    if b {
        '1'
    } else {
        '0'
    }
}

/// A mask as a bit string.
pub open spec fn as_string(mask: Seq<bool>) -> Seq<char> {
    mask.map_values(|b: bool| bit_of(b))
}

/// A mask as a list whose elements are separated by commas.
pub open spec fn as_list(mask: Seq<bool>) -> Seq<char> {
    join(mask.map_values(|b: bool| seq![bit_of(b)]), seq![','])
}

/// A mask as a list in brackets.
pub open spec fn as_bracketed_list(mask: Seq<bool>) -> Seq<char> {
    seq!['['] + as_list(mask) + seq![']']
}

/// Splitting a list gives its elements back.
proof fn list_splits(mask: Seq<bool>)
    requires
        mask.len() > 0,
    ensures
        split(as_list(mask), ',') == mask.map_values(|b: bool| seq![bit_of(b)]),
        as_list(mask).len() > 0,
        as_list(mask)[0] == bit_of(mask[0]),
        as_list(mask).last() == bit_of(mask.last()),
        mask.len() > 1 ==> as_list(mask).contains(','),
        mask.len() == 1 ==> as_list(mask) == as_string(mask),
    decreases mask.len(),
{
    let parts = mask.map_values(|b: bool| seq![bit_of(b)]);
    let whole = as_list(mask);
    let last = bit_of(mask.last());
    if mask.len() == 1 {
        assert(whole == parts[0]);
        assert(whole.drop_last() =~= Seq::<char>::empty());
        let nothing = Seq::<char>::empty();
        assert(split(nothing, ',') == seq![nothing]);
        assert(split(whole, ',') =~= seq![nothing].update(0, nothing.push(last)));
        assert(nothing.push(last) =~= parts[0]);
        assert(split(whole, ',') =~= parts);
        assert(whole =~= as_string(mask));
    } else {
        let front = mask.drop_last();
        list_splits(front);
        let before = as_list(front);
        let pieces = front.map_values(|b: bool| seq![bit_of(b)]);
        assert(parts.drop_last() =~= pieces);
        assert(whole =~= before.push(',').push(last));
        assert(whole.drop_last() =~= before.push(','));
        assert(before.push(',').drop_last() =~= before);
        let nothing = Seq::<char>::empty();
        assert(split(before.push(','), ',') == pieces.push(nothing));
        let ended = pieces.push(nothing);
        assert(split(whole, ',') == ended.update(ended.len() - 1, ended.last().push(last)));
        assert(nothing.push(last) =~= parts.last());
        assert(split(whole, ',') =~= parts);
        assert(whole[before.len() as int] == ',');
    }
}

/// An element of one character stands for that bit.
proof fn element_is_bit(b: bool)
    ensures
        element_bit(seq![bit_of(b)]) == Some(b),
{
    let s = seq![bit_of(b)];
    assert(trim(s) == s);
    assert(s.drop_last() =~= Seq::<char>::empty());
    assert(digits_value(s.drop_last()) == 0);
    assert(digits_value(s) == (if b {
        1nat
    } else {
        0
    }));
}

/// A list stands for the mask that it was made from.
proof fn list_stands_for(mask: Seq<bool>)
    requires
        mask.len() > 0,
    ensures
        list_bits(as_list(mask)) == Ok::<Seq<bool>, MaskFault>(mask),
{
    list_splits(mask);
    let parts = split(as_list(mask), ',');
    assert forall|i: int| 0 <= i < parts.len() implies element_bit(#[trigger] parts[i]) == Some(
        mask[i],
    ) by {
        element_is_bit(mask[i]);
    }
    assert(Seq::new(parts.len(), |i: int| element_bit(parts[i])->0) =~= mask);
}

/// The three formats of a mask stand for the same mask: the bit string, the list separated by
/// commas, and the list in brackets.
pub proof fn formats_agree(mask: Seq<bool>)
    requires
        mask.len() > 0,
    ensures
        mask_bits(as_string(mask)) == Ok::<Seq<bool>, MaskFault>(mask),
        mask_bits(as_list(mask)) == Ok::<Seq<bool>, MaskFault>(mask),
        mask_bits(as_bracketed_list(mask)) == Ok::<Seq<bool>, MaskFault>(mask),
{
    list_splits(mask);
    list_stands_for(mask);
    let bits = as_string(mask);
    assert(bits[0] == bit_of(mask[0]));
    assert(bits.last() == bit_of(mask.last()));
    assert(trim(bits) == bits);
    assert(!bits.contains(',')) by {
        if bits.contains(',') {
            let k = choose|k: int| 0 <= k < bits.len() && bits[k] == ',';
            assert(bits[k] == bit_of(mask[k]));
        }
    }
    bits_end_is(bits, bits.len());
    assert(Seq::new(bits.len(), |i: int| bits[i] == '1') =~= mask);
    let list = as_list(mask);
    assert(trim(list) == list);
    let wrapped = as_bracketed_list(mask);
    assert(wrapped[0] == '[' && wrapped.last() == ']');
    assert(trim(wrapped) == wrapped);
    assert(wrapped.subrange(1, wrapped.len() - 1) =~= list);
}

/// A text of the characters `0` and `1` is a mask with an entry for each of them, set where it is `1`.
pub proof fn bit_strings_are_masks(s: Seq<char>)
    requires
        s.len() > 0,
        forall|i: int| 0 <= i < s.len() ==> #[trigger] s[i] == '0' || s[i] == '1',
    ensures
        mask_bits(s) is Ok,
        (mask_bits(s)->Ok_0).len() == s.len(),
        forall|i: int| 0 <= i < s.len() ==> #[trigger] (mask_bits(s)->Ok_0)[i] == (s[i] == '1'),
{
    let mask = Seq::new(s.len(), |i: int| s[i] == '1');
    formats_agree(mask);
    assert(as_string(mask) =~= s) by {
        assert forall|i: int| 0 <= i < s.len() implies as_string(mask)[i] == s[i] by {
            assert(s[i] == '0' || s[i] == '1');
        }
    }
}

/// A list of the elements `0` and `1`, with commas between them, is a mask with an entry for each of
/// them, set where it is `1`. In brackets it is the same mask.
pub proof fn bit_lists_are_masks(parts: Seq<Seq<char>>)
    requires
        parts.len() > 0,
        forall|i: int|
            0 <= i < parts.len() ==> #[trigger] parts[i] == seq!['0'] || parts[i] == seq!['1'],
    ensures
        mask_bits(join(parts, seq![','])) is Ok,
        (mask_bits(join(parts, seq![',']))->Ok_0).len() == parts.len(),
        forall|i: int|
            0 <= i < parts.len() ==> (#[trigger] (mask_bits(join(parts, seq![',']))->Ok_0)[i]
                <==> parts[i] == seq!['1']),
        mask_bits(seq!['['] + join(parts, seq![',']) + seq![']']) == mask_bits(
            join(parts, seq![',']),
        ),
{
    let mask = Seq::new(parts.len(), |i: int| parts[i] == seq!['1']);
    formats_agree(mask);
    let again = mask.map_values(|b: bool| seq![bit_of(b)]);
    assert forall|i: int| 0 <= i < parts.len() implies #[trigger] again[i] == parts[i] by {
        assert(parts[i] == seq!['0'] || parts[i] == seq!['1']);
        assert(seq!['0'][0] != seq!['1'][0]);
    }
    assert(again =~= parts);
}

/// Spaces around a mask do not count, nor do spaces around an element of a list.
pub proof fn spaces_do_not_matter(a: Seq<char>, s: Seq<char>, b: Seq<char>)
    requires
        forall|i: int| 0 <= i < a.len() ==> space(#[trigger] a[i]),
        forall|i: int| 0 <= i < b.len() ==> space(#[trigger] b[i]),
        s.len() > 0 ==> !space(s[0]) && !space(s.last()),
    ensures
        mask_bits(a + s + b) == mask_bits(s),
        element_bit(a + s + b) == element_bit(s),
{
    crate::text::trimming_takes_spaces_off(a, s, b);
    let none = Seq::<char>::empty();
    crate::text::trimming_takes_spaces_off(none, s, none);
    assert(none + s + none =~= s);
}

/// An element of a list is a number: 0 or 1, and no other.
pub proof fn elements_are_bits(n: nat)
    ensures
        n == 0 ==> element_bit(decimal(n)) == Some(false),
        n == 1 ==> element_bit(decimal(n)) == Some(true),
        n > 1 ==> element_bit(decimal(n)) is None,
{
    crate::text::decimals_read_back(n);
    let s = decimal(n);
    let none = Seq::<char>::empty();
    crate::text::trimming_takes_spaces_off(none, s, none);
    assert(none + s + none =~= s);
    assert(s[0] as int >= 48 && s[s.len() - 1] as int >= 48);
}

/// A list is a mask exactly where each of its elements is a bit, and then it has these.
pub proof fn lists_go_by_elements(a: Seq<char>, b: Seq<char>)
    requires
        !b.contains(','),
    ensures
        list_bits(a + seq![','] + b) is Ok <==> list_bits(a) is Ok && element_bit(b) is Some,
        list_bits(a + seq![','] + b) is Ok ==> list_bits(a + seq![','] + b)->Ok_0 == (
        list_bits(a)->Ok_0).push(element_bit(b)->0),
        list_bits(b) is Ok <==> element_bit(b) is Some,
        list_bits(b) is Ok ==> list_bits(b)->Ok_0 == seq![element_bit(b)->0],
{
    crate::text::splitting_goes_by_separators(a, b, ',');
    let all = a + seq![','] + b;
    let before = split(a, ',');
    let parts = split(all, ',');
    if list_bits(all) is Ok {
        assert forall|i: int| 0 <= i < before.len() implies element_bit(
            #[trigger] before[i],
        ) is Some by {
            assert(parts[i] == before[i]);
        }
        assert(parts[before.len() as int] == b);
        assert(list_bits(all)->Ok_0 =~= (list_bits(a)->Ok_0).push(element_bit(b)->0));
    }
    if list_bits(a) is Ok && element_bit(b) is Some {
        assert forall|i: int| 0 <= i < parts.len() implies element_bit(
            #[trigger] parts[i],
        ) is Some by {
            if i < before.len() {
                assert(parts[i] == before[i]);
            }
        }
    }
    assert(split(b, ',')[0] == b);
    if list_bits(b) is Ok {
        assert(list_bits(b)->Ok_0 =~= seq![element_bit(b)->0]);
    }
}

/// A text without a comma and brackets is refused at its first character that is not `0` or `1`, and
/// that is told.
pub proof fn other_characters_are_refused(s: Seq<char>, k: int)
    requires
        0 <= k < s.len(),
        forall|i: int| 0 <= i < k ==> #[trigger] s[i] == '0' || s[i] == '1',
        s[k] != '0' && s[k] != '1',
    ensures
        string_bits(s) == Err::<Seq<bool>, MaskFault>(MaskFault::Character(s[k])),
{
    assert forall|i: int| 0 <= i < k implies bit_char(#[trigger] s[i]) by {}
    bits_end_is(s, k as nat);
}

/// A mask is accepted exactly where it has one entry for each feature and one of them is set. A wrong
/// length is told before that none is set.
pub proof fn masks_are_told_apart(raw: Seq<char>, n: nat)
    ensures
        mask_of(raw, n) is Ok <==> mask_bits(raw) is Ok && (mask_bits(raw)->Ok_0).len() == n && (
        exists|i: int| 0 <= i < n && #[trigger] (mask_bits(raw)->Ok_0)[i]),
        mask_of(raw, n) is Ok ==> mask_of(raw, n) == mask_bits(raw),
        mask_bits(raw) is Err ==> mask_of(raw, n) == mask_bits(raw),
        mask_bits(raw) matches Ok(bits) ==> (bits.len() != n ==> mask_of(raw, n) == Err::<
            Seq<bool>,
            MaskFault,
        >(MaskFault::Length(bits.len()))),
        mask_bits(raw) matches Ok(bits) ==> (bits.len() == n && (forall|i: int|
            0 <= i < n ==> !#[trigger] bits[i]) ==> mask_of(raw, n) == Err::<
            Seq<bool>,
            MaskFault,
        >(MaskFault::AllZero)),
{
    if mask_bits(raw) is Ok {
        let bits = mask_bits(raw)->Ok_0;
        if exists|i: int| 0 <= i < bits.len() && #[trigger] bits[i] {
            let i = choose|i: int| 0 <= i < bits.len() && #[trigger] bits[i];
            assert(bits.contains(true)) by {
                assert(bits[i] == true);
            }
        }
        if bits.contains(true) {
            let i = bits.index_of(true);
            assert(bits[i]);
        }
    }
}

/// Without a mask every feature is enabled, and a mask that is given counts as it is.
pub proof fn all_features_by_default(raw: Seq<char>, n: nat)
    ensures
        chosen_mask(None, n) is Ok,
        (chosen_mask(None, n)->Ok_0).len() == n,
        forall|i: int| 0 <= i < n ==> #[trigger] (chosen_mask(None, n)->Ok_0)[i],
        chosen_mask(Some(raw), n) == mask_of(raw, n),
{
}

/// A text of the characters `0` and `1`, one for each feature and one of them `1`, is accepted as the
/// mask in which an entry is set where the character is `1`.
pub proof fn bit_strings_are_accepted(raw: &str, n: usize, r: Result<Vec<bool>, String>)
    requires
        call_ensures(parse_vec_mask, (raw, n), r),
        raw@.len() == n,
        forall|i: int| 0 <= i < n ==> #[trigger] raw@[i] == '0' || raw@[i] == '1',
        exists|i: int| 0 <= i < n && #[trigger] raw@[i] == '1',
    ensures
        r is Ok,
        (r->Ok_0)@.len() == n,
        forall|i: int| 0 <= i < n ==> #[trigger] (r->Ok_0)@[i] == (raw@[i] == '1'),
{
    bit_strings_are_masks(raw@);
    masks_are_told_apart(raw@, n as nat);
    let i = choose|i: int| 0 <= i < n && #[trigger] raw@[i] == '1';
    assert((mask_bits(raw@)->Ok_0)[i]);
}

} // verus!
