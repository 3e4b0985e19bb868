//! Adapter details parsed from the GPU's name and driver description.

use vstd::prelude::*;

verus! {

/// Name and driver description of the GPU adapter.
pub struct RenderAdapterInfo {
    pub name: String,
    pub driver_info: String,
}

pub open spec fn is_digit(c: char) -> bool {
    '0' <= c && c <= '9'
}

pub open spec fn digit_value(c: char) -> nat {
    (c as nat - '0' as nat) as nat
}

/// The decimal value of a string of digits.
pub open spec fn decimal_value(d: Seq<char>) -> nat
    decreases d.len(),
{
    if d.len() == 0 {
        0
    } else {
        decimal_value(d.drop_last()) * 10 + digit_value(d.last())
    }
}

/// The leading run of digits of `s`.
pub open spec fn leading_digits(s: Seq<char>) -> Seq<char>
    decreases s.len(),
{
    if s.len() == 0 || !is_digit(s[0]) {
        Seq::empty()
    } else {
        seq![s[0]] + leading_digits(s.drop_first())
    }
}

/// `pat` occurs in `s` at position `i`.
pub open spec fn occurs_at(s: Seq<char>, pat: Seq<char>, i: int) -> bool {
    0 <= i && i + pat.len() <= s.len() && s.subrange(i, i + pat.len()) == pat
}

/// The first position at or after `from` where `pat` occurs in `s`.
pub open spec fn find_from(s: Seq<char>, pat: Seq<char>, from: int) -> Option<int>
    decreases s.len() - from,
{
    if from < 0 || from + pat.len() > s.len() {
        None
    } else if occurs_at(s, pat, from) {
        Some(from)
    } else if from >= s.len() {
        None
    } else {
        find_from(s, pat, from + 1)
    }
}

/// `s` without a leading `+`.
pub open spec fn unsigned_part(s: Seq<char>) -> Seq<char> {
    if s.len() > 0 && s[0] == '+' {
        s.drop_first()
    } else {
        s
    }
}

/// What `str::parse::<u32>` accepts: an optional `+`, then one or more
/// digits whose value fits in 32 bits.
pub open spec fn spec_parse_u32(s: Seq<char>) -> Option<u32> {
    let d = unsigned_part(s);
    if d.len() > 0 && (forall|i: int| 0 <= i < d.len() ==> is_digit(#[trigger] d[i])) && decimal_value(d)
        <= u32::MAX {
        Some(decimal_value(d) as u32)
    } else {
        None
    }
}

pub open spec fn adreno_prefix() -> Seq<char> {
    seq!['A', 'd', 'r', 'e', 'n', 'o', ' ', '(', 'T', 'M', ')', ' ']
}

/// The model number of an Adreno adapter: the digits right after the
/// `Adreno (TM) ` prefix of its name (suffix letters ignored), taken modulo
/// 2^32; `None` when the name lacks the prefix.
pub open spec fn spec_adreno_model(name: Seq<char>) -> Option<u32> {
    if occurs_at(name, adreno_prefix(), 0) {
        Some(
            (decimal_value(leading_digits(name.subrange(12, name.len() as int))) % 0x1_0000_0000) as u32,
        )
    } else {
        None
    }
}

proof fn lemma_decimal_mod(d: Seq<char>, c: char, acc: u32)
    requires
        acc as nat == decimal_value(d) % 0x1_0000_0000,
        is_digit(c),
    ensures
        ((acc as nat * 10 + digit_value(c)) % 0x1_0000_0000) == decimal_value(d.push(c)) % 0x1_0000_0000,
{
    assert(d.push(c).drop_last() =~= d);
    let v = decimal_value(d);
    let m = 0x1_0000_0000nat;
    vstd::arithmetic::div_mod::lemma_fundamental_div_mod(v as int, m as int);
    let q = v / m;
    assert(v == q * m + acc);
    assert(v * 10 + digit_value(c) == (acc as nat * 10 + digit_value(c)) + (q * 10) * m) by (nonlinear_arith)
        requires
            v == q * m + acc,
    ;
    vstd::arithmetic::div_mod::lemma_mod_multiples_vanish((q * 10) as int, (acc as nat * 10 + digit_value(c)) as int, m as int);
}

proof fn lemma_leading_digits_prefix(s: Seq<char>, i: int)
    requires
        0 <= i <= s.len(),
        forall|j: int| 0 <= j < i ==> is_digit(#[trigger] s[j]),
    ensures
        i == s.len() || !is_digit(s[i]) ==> leading_digits(s) == s.subrange(0, i),
    decreases i,
{
    if i > 0 {
        let t = s.drop_first();
        assert forall|j: int| 0 <= j < i - 1 implies is_digit(#[trigger] t[j]) by {
            assert(t[j] == s[j + 1]);
        }
        lemma_leading_digits_prefix(t, i - 1);
        if i == s.len() || !is_digit(s[i]) {
            assert(i - 1 == t.len() || !is_digit(t[i - 1]));
            assert(s.subrange(0, i) =~= seq![s[0]] + t.subrange(0, i - 1));
        }
    } else {
        if i == s.len() || !is_digit(s[i]) {
            assert(s.subrange(0, 0) =~= Seq::<char>::empty());
        }
    }
}

/// The model number of a Qualcomm Adreno adapter, parsed from its name.
/// The number only means something on Android; the caller checks that.
pub fn get_adreno_model(adapter_info: &RenderAdapterInfo) -> (r: Option<u32>)
    ensures
        r == spec_adreno_model(adapter_info.name@),
{
    let name = adapter_info.name.as_str();
    let prefix = "Adreno (TM) ";
    proof {
        reveal_strlit("Adreno (TM) ");
        assert(prefix@ =~= adreno_prefix());
    }
    let n = name.unicode_len();
    if n < 12 {
        assert(adreno_prefix().len() == 12);
        return None;
    }
    let mut i: usize = 0;
    while i < 12
        invariant
            i <= 12,
            n == name@.len(),
            name@ == adapter_info.name@,
            12 <= n,
            prefix@ == adreno_prefix(),
            forall|j: int| 0 <= j < i ==> name@[j] == adreno_prefix()[j],
        decreases 12 - i,
    {
        if name.get_char(i) != prefix.get_char(i) {
            assert(name@.subrange(0, 12)[i as int] != adreno_prefix()[i as int]);
            assert(name@.subrange(0, 12) != adreno_prefix());
            assert(!occurs_at(name@, adreno_prefix(), 0));
            return None;
        }
        i = i + 1;
    }
    assert(name@.subrange(0, 12) =~= adreno_prefix());
    let ghost rest = name@.subrange(12, n as int);
    let mut acc: u32 = 0;
    let mut k: usize = 12;
    while k < n && name.get_char(k) >= '0' && name.get_char(k) <= '9'
        invariant
            12 <= k <= n,
            n == name@.len(),
            name@ == adapter_info.name@,
            rest == name@.subrange(12, n as int),
            forall|j: int| 0 <= j < k - 12 ==> is_digit(#[trigger] rest[j]),
            acc as nat == decimal_value(rest.subrange(0, k - 12)) % 0x1_0000_0000,
        decreases n - k,
    {
        let c = name.get_char(k);
        proof {
            assert(rest[k - 12] == c);
            lemma_decimal_mod(rest.subrange(0, k - 12), c, acc);
            assert(rest.subrange(0, k - 12).push(c) =~= rest.subrange(0, k - 11));
        }
        let d = (c as u32) - ('0' as u32);
        acc = ((acc as u64 * 10 + d as u64) % 0x1_0000_0000u64) as u32;
        k = k + 1;
    }
    proof {
        if k < n {
            assert(rest[k - 12] == name@[k as int]);
        }
        lemma_leading_digits_prefix(rest, k - 12);
    }
    Some(acc)
}

pub open spec fn mali_pattern() -> Seq<char> {
    seq!['M', 'a', 'l', 'i']
}

pub open spec fn mali_version_marker() -> Seq<char> {
    seq!['v', '1', '.', 'r']
}

/// The driver version of an ARM Mali adapter: for a name that mentions
/// `Mali`, the number between the first `v1.r` of the driver description
/// and the first `p` after it, parsed as `str::parse::<u32>` does.
pub open spec fn spec_mali_driver_version(name: Seq<char>, driver_info: Seq<char>) -> Option<u32> {
    if find_from(name, mali_pattern(), 0) is None {
        None
    } else {
        match find_from(driver_info, mali_version_marker(), 0) {
            None => None,
            Some(start) => match find_from(driver_info, seq!['p'], start) {
                None => None,
                Some(end) => if end >= start + 4 {
                    spec_parse_u32(driver_info.subrange(start + 4, end))
                } else {
                    None
                },
            },
        }
    }
}

proof fn lemma_find_bounds(s: Seq<char>, pat: Seq<char>, from: int)
    ensures
        find_from(s, pat, from) matches Some(i) ==> from <= i && occurs_at(s, pat, i),
    decreases s.len() - from,
{
    if !(from < 0 || from + pat.len() > s.len()) && !occurs_at(s, pat, from) && from < s.len() {
        lemma_find_bounds(s, pat, from + 1);
    }
}

proof fn lemma_find_step(s: Seq<char>, pat: Seq<char>, i: int)
    requires
        0 <= i,
        i + pat.len() <= s.len(),
        pat.len() > 0,
        !occurs_at(s, pat, i),
    ensures
        find_from(s, pat, i) == find_from(s, pat, i + 1),
{
}

/// The first position at or after `from` where `pat` occurs in `s`.
fn find_in(s: &str, pat: &str, from: usize) -> (r: Option<usize>)
    requires
        pat@.len() > 0,
    ensures
        match find_from(s@, pat@, from as int) {
            Some(i) => r == Some(i as usize) && from <= i && i + pat@.len() <= s@.len() <= usize::MAX,
            None => r is None,
        },
{
    proof {
        lemma_find_bounds(s@, pat@, from as int);
    }
    let n = s.unicode_len();
    let m = pat.unicode_len();
    let mut i = from;
    if i > n {
        return None;
    }
    while m <= n - i
        invariant
            from <= i <= n,
            n == s@.len(),
            m == pat@.len(),
            m > 0,
            find_from(s@, pat@, from as int) == find_from(s@, pat@, i as int),
        decreases n - i,
    {
        let mut j: usize = 0;
        let mut same = true;
        while j < m
            invariant
                j <= m,
                i + m <= n,
                n == s@.len(),
                m == pat@.len(),
                same == forall|t: int| 0 <= t < j ==> s@[i + t] == pat@[t],
            decreases m - j,
        {
            if s.get_char(i + j) != pat.get_char(j) {
                same = false;
            }
            j = j + 1;
        }
        if same {
            assert(s@.subrange(i as int, i + m) =~= pat@);
            return Some(i);
        }
        proof {
            let t = choose|t: int| 0 <= t < m && s@[i + t] != pat@[t];
            assert(s@.subrange(i as int, i + m)[t] != pat@[t]);
            lemma_find_step(s@, pat@, i as int);
        }
        i = i + 1;
    }
    None
}

proof fn lemma_decimal_grows(d: Seq<char>, k: int)
    requires
        0 <= k <= d.len(),
    ensures
        decimal_value(d.subrange(0, k)) <= decimal_value(d),
    decreases d.len() - k,
{
    if k < d.len() {
        lemma_decimal_grows(d, k + 1);
        assert(d.subrange(0, k + 1).drop_last() =~= d.subrange(0, k));
    } else {
        assert(d.subrange(0, k) =~= d);
    }
}

/// Parses the characters `from..to` of `s` as `str::parse::<u32>` does.
fn parse_u32_range(s: &str, from: usize, to: usize) -> (r: Option<u32>)
    requires
        from <= to <= s@.len(),
    ensures
        r == spec_parse_u32(s@.subrange(from as int, to as int)),
{
    let ghost t = s@.subrange(from as int, to as int);
    let mut i = from;
    if i < to && s.get_char(i) == '+' {
        i = i + 1;
    }
    let ghost d = s@.subrange(i as int, to as int);
    assert(d =~= unsigned_part(t));
    if i == to {
        assert(d.len() == 0);
        return None;
    }
    let start = i;
    let mut acc: u64 = 0;
    while i < to
        invariant
            start <= i <= to,
            to <= s@.len(),
            d == s@.subrange(start as int, to as int),
            d == unsigned_part(t),
            t == s@.subrange(from as int, to as int),
            d.len() > 0,
            forall|j: int| 0 <= j < i - start ==> is_digit(#[trigger] d[j]),
            acc as nat == decimal_value(d.subrange(0, i - start)),
            acc <= u32::MAX,
        decreases to - i,
    {
        let c = s.get_char(i);
        if !(c >= '0' && c <= '9') {
            assert(!is_digit(d[i - start]));
            assert(!(forall|j: int| 0 <= j < d.len() ==> is_digit(#[trigger] d[j])));
            return None;
        }
        assert(d[i - start] == c);
        assert(d.subrange(0, i - start + 1).drop_last() =~= d.subrange(0, i - start));
        acc = acc * 10 + ((c as u32) - ('0' as u32)) as u64;
        if acc > 0xFFFF_FFFFu64 {
            proof {
                lemma_decimal_grows(d, i - start + 1);
            }
            return None;
        }
        i = i + 1;
    }
    assert(d.subrange(0, i - start) =~= d);
    Some(acc as u32)
}

/// The driver version of an ARM Mali adapter, parsed from its driver
/// description. It only means something on Android; the caller checks that.
pub fn get_mali_driver_version(adapter_info: &RenderAdapterInfo) -> (r: Option<u32>)
    ensures
        r == spec_mali_driver_version(adapter_info.name@, adapter_info.driver_info@),
{
    let mali = "Mali";
    let marker = "v1.r";
    let p = "p";
    proof {
        reveal_strlit("Mali");
        reveal_strlit("v1.r");
        reveal_strlit("p");
        assert(mali@ =~= mali_pattern());
        assert(marker@ =~= mali_version_marker());
        assert(p@ =~= seq!['p']);
    }
    let name = adapter_info.name.as_str();
    let driver_info = adapter_info.driver_info.as_str();
    if find_in(name, mali, 0).is_none() {
        return None;
    }
    let start = match find_in(driver_info, marker, 0) {
        Some(start) => start,
        None => return None,
    };
    let end = match find_in(driver_info, p, start) {
        Some(end) => end,
        None => return None,
    };
    if end - start < 4 {
        return None;
    }
    parse_u32_range(driver_info, start + 4, end)
}

} // verus!
