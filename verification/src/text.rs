//! Character-level string helpers shared by the rest of the library.
use vstd::prelude::*;

verus! {

/// The character `'0' + d` for a decimal digit `d`.
pub open spec fn digit_char(d: int) -> char {
    (48 + d) as char
}

/// ASCII upper-casing of one character; every other character is unchanged.
pub open spec fn upper_char(c: char) -> char {
    if 'a' <= c && c <= 'z' {
        ((c as u32) - 32) as char
    } else {
        c
    }
}

/// ASCII lower-casing of one character; every other character is unchanged.
pub open spec fn lower_char(c: char) -> char {
    if 'A' <= c && c <= 'Z' {
        ((c as u32) + 32) as char
    } else {
        c
    }
}

/// What `str::to_ascii_uppercase` gives for a sequence of characters.
pub open spec fn ascii_upper(s: Seq<char>) -> Seq<char> {
    s.map_values(|c: char| upper_char(c))
}

/// What `str::to_ascii_lowercase` gives for a sequence of characters.
pub open spec fn ascii_lower(s: Seq<char>) -> Seq<char> {
    s.map_values(|c: char| lower_char(c))
}

/// `p` is a prefix of `s`.
pub open spec fn is_prefix(p: Seq<char>, s: Seq<char>) -> bool {
    p.len() <= s.len() && s.subrange(0, p.len() as int) == p
}

/// `p` is a suffix of `s`.
pub open spec fn is_suffix(p: Seq<char>, s: Seq<char>) -> bool {
    p.len() <= s.len() && s.subrange(s.len() - p.len(), s.len() as int) == p
}

/// Decimal digits of a natural number, most significant first, without leading zeros.
pub open spec fn nat_decimal(n: nat) -> Seq<char>
    decreases n,
{
    if n < 10 {
        seq![digit_char(n as int)]
    } else {
        nat_decimal(n / 10).push(digit_char((n % 10) as int))
    }
}

/// How `Display` writes an integer: an optional minus sign, then its decimal digits.
pub open spec fn int_decimal(v: int) -> Seq<char> {
    if v < 0 {
        seq!['-'] + nat_decimal((-v) as nat)
    } else {
        nat_decimal(v as nat)
    }
}

/// Rust's `/` on integers: the quotient rounded toward zero.
pub open spec fn trunc_div(a: int, b: int) -> int
    recommends
        b > 0,
{
    if a >= 0 {
        a / b
    } else {
        -((-a) / b)
    }
}

/// Appends one character to a string.
///
/// Calls `String::push`, whose documentation says it appends the given `char`
/// to the end of the string; the contract says the same over the character view.
#[verifier::external_body]
pub fn push_char(s: &mut String, c: char)
    ensures
        final(s)@ == old(s)@.push(c),
{
    s.push(c);
}

/// The characters of `s`, in order.
pub fn chars_of(s: &str) -> (r: Vec<char>)
    ensures
        r@ == s@,
{
    let n = s.unicode_len();
    let mut r: Vec<char> = Vec::new();
    let mut i: usize = 0;
    while i < n
        invariant
            n == s@.len(),
            i <= n,
            r@ == s@.subrange(0, i as int),
        decreases n - i,
    {
        let c = s.get_char(i);
        r.push(c);
        i = i + 1;
        assert(r@ =~= s@.subrange(0, i as int));
    }
    assert(r@ =~= s@);
    r
}

/// Appends every character of `cs` to `s`.
pub fn push_chars(s: &mut String, cs: &Vec<char>)
    ensures
        final(s)@ == old(s)@ + cs@,
{
    let mut i: usize = 0;
    while i < cs.len()
        invariant
            i <= cs@.len(),
            s@ == old(s)@ + cs@.subrange(0, i as int),
        decreases cs@.len() - i,
    {
        push_char(s, cs[i]);
        i = i + 1;
        assert(s@ =~= old(s)@ + cs@.subrange(0, i as int));
    }
    assert(cs@.subrange(0, cs@.len() as int) =~= cs@);
}

/// A new string holding the characters of `cs`.
pub fn string_of_chars(cs: &Vec<char>) -> (r: String)
    ensures
        r@ == cs@,
{
    let mut r = String::new();
    push_chars(&mut r, cs);
    assert(r@ =~= cs@);
    r
}

/// A new string holding the characters of `s`.
pub fn copy_str(s: &str) -> (r: String)
    ensures
        r@ == s@,
{
    let cs = chars_of(s);
    string_of_chars(&cs)
}

/// Whether two strings hold the same characters.
pub fn str_eq(a: &str, b: &str) -> (r: bool)
    ensures
        r == (a@ == b@),
{
    let ca = chars_of(a);
    let cb = chars_of(b);
    chars_eq(&ca, &cb)
}

/// Whether two character vectors are equal.
pub fn chars_eq(a: &Vec<char>, b: &Vec<char>) -> (r: bool)
    ensures
        r == (a@ == b@),
{
    if a.len() != b.len() {
        return false;
    }
    let mut i: usize = 0;
    while i < a.len()
        invariant
            a@.len() == b@.len(),
            i <= a@.len(),
            forall|j: int| 0 <= j < i ==> a@[j] == b@[j],
        decreases a@.len() - i,
    {
        if a[i] != b[i] {
            return false;
        }
        i = i + 1;
    }
    assert(a@ =~= b@);
    true
}

/// Whether `p` is a prefix of `s`, on character vectors.
pub fn chars_starts_with(s: &Vec<char>, p: &Vec<char>) -> (r: bool)
    ensures
        r == is_prefix(p@, s@),
{
    if p.len() > s.len() {
        return false;
    }
    let mut i: usize = 0;
    while i < p.len()
        invariant
            p@.len() <= s@.len(),
            i <= p@.len(),
            forall|j: int| 0 <= j < i ==> s@[j] == p@[j],
        decreases p@.len() - i,
    {
        if s[i] != p[i] {
            assert(s@.subrange(0, p@.len() as int)[i as int] != p@[i as int]);
            return false;
        }
        i = i + 1;
    }
    assert(s@.subrange(0, p@.len() as int) =~= p@);
    true
}

/// Whether `p` is a prefix of `s`.
pub fn starts_with(s: &str, p: &str) -> (r: bool)
    ensures
        r == is_prefix(p@, s@),
{
    let cs = chars_of(s);
    let cp = chars_of(p);
    chars_starts_with(&cs, &cp)
}

/// Whether `p` is a suffix of `s`.
pub fn ends_with(s: &str, p: &str) -> (r: bool)
    ensures
        r == is_suffix(p@, s@),
{
    let cs = chars_of(s);
    let cp = chars_of(p);
    if cp.len() > cs.len() {
        return false;
    }
    let sl = cs.len();
    let off = sl - cp.len();
    let mut i: usize = 0;
    while i < cp.len()
        invariant
            sl == cs@.len(),
            cp@.len() <= cs@.len(),
            off + cp@.len() == cs@.len(),
            cs@ == s@,
            cp@ == p@,
            i <= cp@.len(),
            forall|j: int| 0 <= j < i ==> cs@[off + j] == cp@[j],
        decreases cp@.len() - i,
    {
        if cs[off + i] != cp[i] {
            assert(cs@.subrange(off as int, cs@.len() as int)[i as int] != cp@[i as int]);
            return false;
        }
        i = i + 1;
    }
    assert(cs@.subrange(off as int, cs@.len() as int) =~= cp@);
    true
}

/// ASCII upper-casing of one character.
pub fn upper_char_exec(c: char) -> (r: char)
    ensures
        r == upper_char(c),
{
    if 'a' <= c && c <= 'z' {
        let u: u32 = c as u32;
        let b: u8 = (u - 32) as u8;
        b as char
    } else {
        c
    }
}

/// ASCII lower-casing of one character.
pub fn lower_char_exec(c: char) -> (r: char)
    ensures
        r == lower_char(c),
{
    if 'A' <= c && c <= 'Z' {
        let u: u32 = c as u32;
        let b: u8 = (u + 32) as u8;
        b as char
    } else {
        c
    }
}

/// The ASCII upper-case form of `s`, as `str::to_ascii_uppercase` gives it.
pub fn to_ascii_uppercase(s: &str) -> (r: String)
    ensures
        r@ == ascii_upper(s@),
{
    let cs = chars_of(s);
    let mut r = String::new();
    let mut i: usize = 0;
    while i < cs.len()
        invariant
            cs@ == s@,
            i <= cs@.len(),
            r@ == ascii_upper(cs@.subrange(0, i as int)),
        decreases cs@.len() - i,
    {
        let c = upper_char_exec(cs[i]);
        push_char(&mut r, c);
        i = i + 1;
        assert(r@ =~= ascii_upper(cs@.subrange(0, i as int)));
    }
    assert(cs@.subrange(0, cs@.len() as int) =~= cs@);
    r
}

/// The ASCII lower-case form of `s`, as `str::to_ascii_lowercase` gives it.
pub fn to_ascii_lowercase(s: &str) -> (r: String)
    ensures
        r@ == ascii_lower(s@),
{
    let cs = chars_of(s);
    let mut r = String::new();
    let mut i: usize = 0;
    while i < cs.len()
        invariant
            cs@ == s@,
            i <= cs@.len(),
            r@ == ascii_lower(cs@.subrange(0, i as int)),
        decreases cs@.len() - i,
    {
        let c = lower_char_exec(cs[i]);
        push_char(&mut r, c);
        i = i + 1;
        assert(r@ =~= ascii_lower(cs@.subrange(0, i as int)));
    }
    assert(cs@.subrange(0, cs@.len() as int) =~= cs@);
    r
}

/// Appends the decimal digits of `n` to `s`.
pub fn push_nat_decimal(s: &mut String, n: u64)
    ensures
        final(s)@ == old(s)@ + nat_decimal(n as nat),
    decreases n,
{
    if n < 10 {
        let b: u8 = (48 + n) as u8;
        push_char(s, b as char);
        assert(final(s)@ =~= old(s)@ + nat_decimal(n as nat)) by {
            assert(nat_decimal(n as nat) == seq![digit_char(n as int)]);
        }
    } else {
        push_nat_decimal(s, n / 10);
        let b: u8 = (48 + n % 10) as u8;
        push_char(s, b as char);
        assert(final(s)@ =~= old(s)@ + nat_decimal(n as nat));
    }
}

/// Appends the `Display` form of `v` to `s`.
pub fn push_int_decimal(s: &mut String, v: i64)
    ensures
        final(s)@ == old(s)@ + int_decimal(v as int),
{
    if v < 0 {
        push_char(s, '-');
        let m: u64 = ((-(v + 1)) as u64) + 1;
        push_nat_decimal(s, m);
        assert(final(s)@ =~= old(s)@ + int_decimal(v as int));
    } else {
        push_nat_decimal(s, v as u64);
    }
}

/// `a / 60` rounded toward zero, as Rust computes it for `i64`.
pub fn div60_toward_zero(a: i64) -> (r: i64)
    ensures
        r == trunc_div(a as int, 60),
{
    if a >= 0 {
        a / 60
    } else {
        let m: u64 = ((-(a + 1)) as u64) + 1;
        let q: u64 = m / 60;
        -(q as i64)
    }
}


/// The character views of a list of strings.
pub open spec fn views(v: Seq<String>) -> Seq<Seq<char>> {
    v.map_values(|s: String| s@)
}

/// The parts written one after another, with `sep` between neighbours.
pub open spec fn join_with(parts: Seq<Seq<char>>, sep: char) -> Seq<char>
    decreases parts.len(),
{
    if parts.len() == 0 {
        Seq::empty()
    } else if parts.len() == 1 {
        parts[0]
    } else {
        join_with(parts.drop_last(), sep).push(sep) + parts.last()
    }
}

/// No part contains `sep`.
pub open spec fn all_free_of(parts: Seq<Seq<char>>, sep: char) -> bool {
    forall|i: int| 0 <= i < parts.len() ==> !(#[trigger] parts[i]).contains(sep)
}

/// `parts` is how `str::split(sep)` cuts `s`: at least one part, none holding `sep`,
/// and joined with `sep` they give `s` back.
pub open spec fn is_split_of(parts: Seq<Seq<char>>, s: Seq<char>, sep: char) -> bool {
    parts.len() >= 1 && all_free_of(parts, sep) && join_with(parts, sep) == s
}

proof fn lemma_join_extend_last(parts: Seq<Seq<char>>, e: Seq<char>, c: char, sep: char)
    ensures
        join_with(parts.push(e.push(c)), sep) == join_with(parts.push(e), sep).push(c),
{
    let a = parts.push(e.push(c));
    let b = parts.push(e);
    if parts.len() == 0 {
        assert(a.len() == 1 && b.len() == 1);
        assert(a[0] == e.push(c));
    } else {
        assert(a.drop_last() =~= parts);
        assert(b.drop_last() =~= parts);
        assert(join_with(a, sep) =~= join_with(b, sep).push(c));
    }
}

proof fn lemma_join_new_part(parts: Seq<Seq<char>>, sep: char)
    requires
        parts.len() >= 1,
    ensures
        join_with(parts.push(Seq::empty()), sep) == join_with(parts, sep).push(sep),
{
    let a = parts.push(Seq::<char>::empty());
    assert(a.drop_last() =~= parts);
    assert(join_with(a, sep) =~= join_with(parts, sep).push(sep));
}

/// Cuts `s` at every `sep`, as `s.split(sep).map(String::from).collect()` does.
pub fn split_on(s: &str, sep: char) -> (r: Vec<String>)
    ensures
        is_split_of(views(r@), s@, sep),
{
    let cs = chars_of(s);
    let mut parts: Vec<String> = Vec::new();
    let mut cur = String::new();
    let mut i: usize = 0;
    proof {
        assert(views(parts@).push(cur@) =~= seq![Seq::<char>::empty()]);
        assert(cs@.subrange(0, 0) =~= Seq::<char>::empty());
    }
    while i < cs.len()
        invariant
            cs@ == s@,
            i <= cs@.len(),
            all_free_of(views(parts@).push(cur@), sep),
            join_with(views(parts@).push(cur@), sep) == cs@.subrange(0, i as int),
        decreases cs@.len() - i,
    {
        let c = cs[i];
        let ghost full = views(parts@).push(cur@);
        if c == sep {
            let done = cur;
            parts.push(done);
            cur = String::new();
            proof {
                assert(views(parts@) =~= full);
                lemma_join_new_part(full, sep);
                assert(views(parts@).push(cur@) =~= full.push(Seq::empty()));
                assert forall|k: int| 0 <= k < views(parts@).push(cur@).len() implies !(#[trigger] views(parts@).push(cur@)[k]).contains(sep) by {
                    if k < full.len() {
                        assert(views(parts@).push(cur@)[k] == full[k]);
                    }
                }
            }
        } else {
            let ghost old_cur = cur@;
            push_char(&mut cur, c);
            proof {
                lemma_join_extend_last(views(parts@), old_cur, c, sep);
                assert(!old_cur.contains(sep)) by {
                    assert(full[full.len() - 1] == old_cur);
                }
                assert forall|k: int| 0 <= k < views(parts@).push(cur@).len() implies !(#[trigger] views(parts@).push(cur@)[k]).contains(sep) by {
                    if k < views(parts@).len() {
                        assert(views(parts@).push(cur@)[k] == full[k]);
                    } else {
                        assert(views(parts@).push(cur@)[k] == old_cur.push(c));
                        if old_cur.push(c).contains(sep) {
                            let w = choose|w: int| 0 <= w < old_cur.push(c).len() && old_cur.push(c)[w] == sep;
                            if w < old_cur.len() {
                                assert(old_cur[w] == sep);
                            }
                        }
                    }
                }
            }
        }
        i = i + 1;
        assert(cs@.subrange(0, i as int) =~= cs@.subrange(0, i as int - 1).push(c));
    }
    let ghost before = views(parts@).push(cur@);
    parts.push(cur);
    proof {
        assert(cs@.subrange(0, cs@.len() as int) =~= cs@);
        assert(views(parts@) =~= before);
    }
    parts
}

/// Writes the parts with `sep` between neighbours, as `parts.join(sep)` does.
pub fn join_on(parts: &Vec<String>, sep: char) -> (r: String)
    ensures
        r@ == join_with(views(parts@), sep),
{
    let mut r = String::new();
    let mut i: usize = 0;
    proof {
        assert(views(parts@).subrange(0, 0) =~= Seq::<Seq<char>>::empty());
    }
    while i < parts.len()
        invariant
            i <= parts@.len(),
            r@ == join_with(views(parts@).subrange(0, i as int), sep),
        decreases parts@.len() - i,
    {
        let ghost pre = views(parts@).subrange(0, i as int);
        let ghost next = views(parts@).subrange(0, i as int + 1);
        assert(next.drop_last() =~= pre);
        assert(next.last() == parts@[i as int]@);
        if i > 0 {
            push_char(&mut r, sep);
        }
        let cs = chars_of(parts[i].as_str());
        push_chars(&mut r, &cs);
        proof {
            if i == 0 {
                assert(r@ =~= next[0]);
            } else {
                assert(r@ =~= join_with(next, sep));
            }
        }
        i = i + 1;
    }
    assert(views(parts@).subrange(0, parts@.len() as int) =~= views(parts@));
    r
}

/// Joining is undone by splitting: two lists of parts free of `sep` that join to the
/// same text are the same list. So the split of a join gives the parts back.
pub proof fn lemma_split_join_roundtrip(a: Seq<Seq<char>>, b: Seq<Seq<char>>, sep: char)
    requires
        a.len() >= 1,
        b.len() >= 1,
        all_free_of(a, sep),
        all_free_of(b, sep),
        join_with(a, sep) == join_with(b, sep),
    ensures
        a == b,
    decreases a.len() + b.len(),
{
    let s = join_with(a, sep);
    if a.len() == 1 && b.len() == 1 {
        assert(a =~= b);
    } else if a.len() == 1 {
        let pre = join_with(b.drop_last(), sep);
        assert(s[pre.len() as int] == sep);
        assert(s == a[0]);
        assert(a[0].contains(sep));
    } else if b.len() == 1 {
        let pre = join_with(a.drop_last(), sep);
        assert(s[pre.len() as int] == sep);
        assert(s == b[0]);
        assert(b[0].contains(sep));
    } else {
        let pa = join_with(a.drop_last(), sep);
        let pb = join_with(b.drop_last(), sep);
        let la = a.last();
        let lb = b.last();
        assert(s == pa.push(sep) + la);
        assert(s == pb.push(sep) + lb);
        assert(!la.contains(sep));
        assert(!lb.contains(sep));
        if la.len() < lb.len() {
            let w = lb.len() - la.len() - 1;
            assert(s[pa.len() as int] == sep);
            assert(s[pb.len() + 1 + w] == lb[w]);
            assert(pa.len() == pb.len() + 1 + w);
            assert(lb.contains(sep));
        } else if lb.len() < la.len() {
            let w = la.len() - lb.len() - 1;
            assert(s[pb.len() as int] == sep);
            assert(s[pa.len() + 1 + w] == la[w]);
            assert(pb.len() == pa.len() + 1 + w);
            assert(la.contains(sep));
        } else {
            assert(pa.len() == pb.len());
            assert(la =~= lb) by {
                assert forall|k: int| 0 <= k < la.len() implies la[k] == lb[k] by {
                    assert(s[pa.len() + 1 + k] == la[k]);
                    assert(s[pb.len() + 1 + k] == lb[k]);
                }
            }
            assert(pa =~= pb) by {
                assert forall|k: int| 0 <= k < pa.len() implies pa[k] == pb[k] by {
                    assert(s[k] == pa[k]);
                    assert(s[k] == pb[k]);
                }
            }
            assert forall|i: int| 0 <= i < a.drop_last().len() implies !(#[trigger] a.drop_last()[i]).contains(sep) by {
                assert(a.drop_last()[i] == a[i]);
            }
            assert forall|i: int| 0 <= i < b.drop_last().len() implies !(#[trigger] b.drop_last()[i]).contains(sep) by {
                assert(b.drop_last()[i] == b[i]);
            }
            lemma_split_join_roundtrip(a.drop_last(), b.drop_last(), sep);
            assert(a =~= a.drop_last().push(la));
            assert(b =~= b.drop_last().push(lb));
        }
    }
}

/// An ASCII decimal digit.
pub open spec fn is_digit(c: char) -> bool {
    '0' <= c && c <= '9'
}

/// At least one character, all ASCII decimal digits.
pub open spec fn all_digits(ds: Seq<char>) -> bool {
    ds.len() > 0 && forall|i: int| 0 <= i < ds.len() ==> is_digit(#[trigger] ds[i])
}

/// The number the decimal digits `ds` spell.
pub open spec fn digits_value(ds: Seq<char>) -> int
    decreases ds.len(),
{
    if ds.len() == 0 {
        0
    } else {
        10 * digits_value(ds.drop_last()) + ((ds.last() as int) - 48)
    }
}

/// What `str::parse::<u64>` accepts: an optional `+`, then decimal digits whose value
/// fits in a `u64`.
pub open spec fn parse_u64_spec(s: Seq<char>) -> Option<int> {
    let ds = if s.len() > 0 && s[0] == '+' {
        s.drop_first()
    } else {
        s
    };
    if all_digits(ds) && digits_value(ds) <= u64::MAX {
        Some(digits_value(ds))
    } else {
        None
    }
}

/// What `str::parse::<i64>` accepts: an optional `+` or `-`, then decimal digits whose
/// signed value fits in an `i64`.
pub open spec fn parse_i64_spec(s: Seq<char>) -> Option<int> {
    let neg = s.len() > 0 && s[0] == '-';
    let ds = if s.len() > 0 && (s[0] == '+' || s[0] == '-') {
        s.drop_first()
    } else {
        s
    };
    let v = if neg {
        -digits_value(ds)
    } else {
        digits_value(ds)
    };
    if all_digits(ds) && i64::MIN <= v <= i64::MAX {
        Some(v)
    } else {
        None
    }
}

proof fn lemma_digits_value_nonneg(ds: Seq<char>)
    requires
        forall|i: int| 0 <= i < ds.len() ==> is_digit(#[trigger] ds[i]),
    ensures
        digits_value(ds) >= 0,
    decreases ds.len(),
{
    if ds.len() > 0 {
        lemma_digits_value_nonneg(ds.drop_last());
        assert(is_digit(ds[ds.len() - 1]));
    }
}

proof fn lemma_digits_value_prefix(ds: Seq<char>, k: int)
    requires
        0 <= k <= ds.len(),
        forall|i: int| 0 <= i < ds.len() ==> is_digit(#[trigger] ds[i]),
    ensures
        digits_value(ds.subrange(0, k)) <= digits_value(ds),
    decreases ds.len(),
{
    if k < ds.len() {
        assert(ds.drop_last().subrange(0, k) =~= ds.subrange(0, k));
        lemma_digits_value_prefix(ds.drop_last(), k);
        lemma_digits_value_nonneg(ds.drop_last());
        assert(is_digit(ds[ds.len() - 1]));
    } else {
        assert(ds.subrange(0, k) =~= ds);
    }
}

/// Reads decimal digits `cs[start..]` into a number no larger than `limit`;
/// `None` when a character is not a digit, there are none, or the value exceeds `limit`.
fn read_digits(cs: &Vec<char>, start: usize, limit: u64) -> (r: Option<u64>)
    requires
        start <= cs@.len(),
        limit >= 9,
    ensures
        ({
            let ds = cs@.subrange(start as int, cs@.len() as int);
            match r {
                Some(v) => all_digits(ds) && v == digits_value(ds) && v <= limit,
                None => !(all_digits(ds) && digits_value(ds) <= limit),
            }
        }),
{
    let ghost ds = cs@.subrange(start as int, cs@.len() as int);
    if start == cs.len() {
        return None;
    }
    let mut v: u64 = 0;
    let mut i: usize = start;
    proof {
        assert(ds.subrange(0, 0) =~= Seq::<char>::empty());
    }
    while i < cs.len()
        invariant
            start <= i <= cs@.len(),
            ds == cs@.subrange(start as int, cs@.len() as int),
            forall|j: int| 0 <= j < i - start ==> is_digit(#[trigger] ds[j]),
            v == digits_value(ds.subrange(0, i - start)),
            v <= limit,
            limit >= 9,
        decreases cs@.len() - i,
    {
        let c = cs[i];
        assert(c == ds[i - start]);
        if !('0' <= c && c <= '9') {
            return None;
        }
        let d: u64 = ((c as u32) - 48) as u64;
        assert(ds.subrange(0, i - start + 1).drop_last() =~= ds.subrange(0, i - start));
        assert(ds.subrange(0, i - start + 1).last() == c);
        let ghost next = 10 * (v as int) + (d as int);
        assert(next == digits_value(ds.subrange(0, i - start + 1)));
        if v > (limit - d) / 10 {
            proof {
                assert(next > limit) by (nonlinear_arith)
                    requires
                        v > (limit - d) / 10,
                        d <= 9,
                        next == 10 * v + d,
                        limit >= 0,
                {
                }
                if all_digits(ds) {
                    lemma_digits_value_prefix(ds, i - start + 1);
                }
            }
            return None;
        }
        proof {
            assert(next <= limit) by (nonlinear_arith)
                requires
                    v <= (limit - d) / 10,
                    next == 10 * v + d,
                    d <= 9,
            {
            }
        }
        v = v * 10 + d;
        i = i + 1;
    }
    assert(ds.subrange(0, i - start) =~= ds);
    Some(v)
}

/// `str::parse::<u64>`.
pub fn parse_u64(s: &str) -> (r: Option<u64>)
    ensures
        match r {
            Some(v) => parse_u64_spec(s@) == Some(v as int),
            None => parse_u64_spec(s@) is None,
        },
{
    let cs = chars_of(s);
    let start: usize = if cs.len() > 0 && cs[0] == '+' {
        1
    } else {
        0
    };
    assert(cs@.subrange(start as int, cs@.len() as int) =~= (if s@.len() > 0 && s@[0] == '+' {
        s@.drop_first()
    } else {
        s@
    }));
    read_digits(&cs, start, u64::MAX)
}

/// `str::parse::<i64>`.
pub fn parse_i64(s: &str) -> (r: Option<i64>)
    ensures
        match r {
            Some(v) => parse_i64_spec(s@) == Some(v as int),
            None => parse_i64_spec(s@) is None,
        },
{
    let cs = chars_of(s);
    let neg = cs.len() > 0 && cs[0] == '-';
    let start: usize = if cs.len() > 0 && (cs[0] == '+' || cs[0] == '-') {
        1
    } else {
        0
    };
    let ghost ds = cs@.subrange(start as int, cs@.len() as int);
    assert(ds =~= (if s@.len() > 0 && (s@[0] == '+' || s@[0] == '-') {
        s@.drop_first()
    } else {
        s@
    }));
    if neg {
        match read_digits(&cs, start, 9223372036854775808u64) {
            Some(m) => {
                let r: i64 = if m == 9223372036854775808u64 {
                    i64::MIN
                } else {
                    -(m as i64)
                };
                Some(r)
            },
            None => None,
        }
    } else {
        match read_digits(&cs, start, 9223372036854775807u64) {
            Some(m) => Some(m as i64),
            None => None,
        }
    }
}
} // verus!
