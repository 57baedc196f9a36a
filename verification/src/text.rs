//! Small text utilities: decimal rendering of counters and joining of fields.
use vstd::prelude::*;
use vstd::string::*;

verus! {

/// The character of a decimal digit.
pub open spec fn digit_char(d: nat) -> char {
    ((48 + d) as u32) as char
}

/// The decimal rendering of a natural number, without sign or leading zeros.
pub open spec fn decimal(n: nat) -> Seq<char>
    decreases n,
{
    if n < 10 {
        seq![digit_char(n)]
    } else {
        decimal(n / 10).push(digit_char(n % 10))
    }
}

/// Appends one character to a string (`String::push`).
#[verifier::external_body]
pub(crate) fn push_char(s: &mut String, c: char)
    ensures
        final(s)@ == old(s)@.push(c),
{
    s.push(c);
}

fn digit(d: u64) -> (c: char)
    requires
        d < 10,
    ensures
        c == digit_char(d as nat),
{
    let b: u8 = 48u8 + (d as u8);
    b as char
}

/// Appends the decimal rendering of `n` to `s`.
pub fn push_decimal(s: &mut String, n: u64)
    ensures
        final(s)@ == old(s)@ + decimal(n as nat),
    decreases n,
{
    if n >= 10 {
        push_decimal(s, n / 10);
    }
    push_char(s, digit(n % 10));
}

/// The decimal rendering of `n` as a fresh string.
pub fn decimal_string(n: u64) -> (s: String)
    ensures
        s@ == decimal(n as nat),
{
    let mut s = String::new();
    push_decimal(&mut s, n);
    assert(s@ =~= decimal(n as nat));
    s
}

/// The parts, in order, with a comma between each two.
pub open spec fn joined_with_commas(parts: Seq<Seq<char>>) -> Seq<char>
    decreases parts.len(),
{
    if parts.len() == 0 {
        Seq::empty()
    } else if parts.len() == 1 {
        parts[0]
    } else {
        joined_with_commas(parts.drop_last()) + ","@ + parts.last()
    }
}

/// Joins texts with commas between them (`join(",")`).
pub fn join_with_commas(parts: &Vec<String>) -> (s: String)
    ensures
        s@ == joined_with_commas(parts@.map_values(|p: String| p@)),
{
    let ghost ps = parts@.map_values(|p: String| p@);
    let mut s = String::new();
    let mut i: usize = 0;
    while i < parts.len()
        invariant
            0 <= i <= parts.len(),
            ps == parts@.map_values(|p: String| p@),
            s@ == joined_with_commas(ps.take(i as int)),
        decreases parts.len() - i,
    {
        assert(ps.take(i + 1).drop_last() =~= ps.take(i as int));
        if i > 0 {
            s.append(",");
        }
        s.append(parts[i].as_str());
        i = i + 1;
    }
    assert(ps.take(i as int) =~= ps);
    s
}

proof fn lemma_decimal_len(n: nat)
    ensures
        decimal(n).len() >= 1,
        n >= 10 ==> decimal(n).len() >= 2,
    decreases n,
{
    if n >= 10 {
        lemma_decimal_len(n / 10);
    }
}

/// Different numbers have different decimal renderings.
pub proof fn lemma_decimal_injective(a: nat, b: nat)
    requires
        decimal(a) == decimal(b),
    ensures
        a == b,
    decreases a,
{
    lemma_decimal_len(a);
    lemma_decimal_len(b);
    if a >= 10 && b >= 10 {
        assert(decimal(a).drop_last() =~= decimal(a / 10));
        assert(decimal(b).drop_last() =~= decimal(b / 10));
        assert(decimal(a).last() == digit_char(a % 10));
        assert(decimal(b).last() == digit_char(b % 10));
        lemma_decimal_injective(a / 10, b / 10);
    } else if a < 10 && b < 10 {
        assert(decimal(a)[0] == digit_char(a));
        assert(decimal(b)[0] == digit_char(b));
    }
}

/// The characters of a text, one by one.
pub fn chars_of(s: &str) -> (v: Vec<char>)
    ensures
        v@ == s@,
{
    let mut v: Vec<char> = Vec::new();
    for c in it: s.chars()
        invariant
            v@ == it.seq().take(it.index()),
    {
        v.push(c);
    }
    assert(v@ =~= s@);
    v
}

/// `s` with every occurrence of `pattern` replaced by `with`, occurrences
/// found from left to right without overlapping (as `str::replace` finds
/// them for a pattern that is not empty).
pub open spec fn replaced(s: Seq<char>, pattern: Seq<char>, with: Seq<char>) -> Seq<char>
    recommends
        pattern.len() > 0,
    decreases s.len(),
{
    if s.len() == 0 || pattern.len() == 0 {
        s
    } else if pattern.len() <= s.len() && s.take(pattern.len() as int) == pattern {
        with + replaced(s.skip(pattern.len() as int), pattern, with)
    } else {
        seq![s[0]] + replaced(s.skip(1), pattern, with)
    }
}

fn occurs_at(text: &Vec<char>, pattern: &Vec<char>, i: usize) -> (b: bool)
    requires
        i <= text.len(),
    ensures
        b == (pattern.len() <= text.len() - i && text@.skip(i as int).take(pattern.len() as int)
            == pattern@),
{
    if pattern.len() > text.len() - i {
        return false;
    }
    let mut k: usize = 0;
    while k < pattern.len()
        invariant
            0 <= k <= pattern.len(),
            pattern.len() <= text.len() - i,
            forall|j: int| 0 <= j < k ==> text@[i + j] == #[trigger] pattern@[j],
        decreases pattern.len() - k,
    {
        if text[i + k] != pattern[k] {
            assert(text@.skip(i as int).take(pattern.len() as int)[k as int] != pattern@[k as int]);
            return false;
        }
        k = k + 1;
    }
    assert(text@.skip(i as int).take(pattern.len() as int) =~= pattern@);
    true
}

/// Replaces every occurrence of `pattern`, which is not empty, by `with`.
pub fn replace_all(text: &str, pattern: &str, with: &str) -> (out: String)
    requires
        pattern@.len() > 0,
    ensures
        out@ == replaced(text@, pattern@, with@),
{
    let t = chars_of(text);
    let p = chars_of(pattern);
    let mut out = String::new();
    let mut i: usize = 0;
    assert(t@.skip(0) =~= t@);
    while i < t.len()
        invariant
            0 <= i <= t.len(),
            t@ == text@,
            p@ == pattern@,
            p@.len() > 0,
            out@ + replaced(t@.skip(i as int), p@, with@) == replaced(t@, p@, with@),
        decreases t.len() - i,
    {
        let rest = Ghost(t@.skip(i as int));
        if occurs_at(&t, &p, i) {
            assert(rest@.skip(p@.len() as int) =~= t@.skip(i + p@.len()));
            assert(out@ + with@ + replaced(t@.skip(i + p@.len()), p@, with@) == out@ + (with@
                + replaced(rest@.skip(p@.len() as int), p@, with@)));
            out.append(with);
            i = i + p.len();
        } else {
            assert(rest@.skip(1) =~= t@.skip(i + 1));
            assert(rest@[0] == t@[i as int]);
            assert(out@.push(t@[i as int]) + replaced(t@.skip(i + 1), p@, with@) == out@ + (seq![
                rest@[0],
            ] + replaced(rest@.skip(1), p@, with@)));
            push_char(&mut out, t[i]);
            i = i + 1;
        }
    }
    assert(t@.skip(i as int) =~= Seq::<char>::empty());
    assert(out@ + Seq::<char>::empty() =~= out@);
    out
}

/// The fields of a text separated by commas, empty ones included
/// (`split(',')`).
pub open spec fn comma_fields(s: Seq<char>) -> Seq<Seq<char>>
    decreases s.len(),
{
    if s.len() == 0 {
        seq![Seq::<char>::empty()]
    } else {
        let init = comma_fields(s.drop_last());
        if s.last() == ',' {
            init.push(Seq::<char>::empty())
        } else {
            init.update(init.len() - 1, init.last().push(s.last()))
        }
    }
}

/// The texts as the logic sees them.
pub open spec fn texts_view(v: Seq<String>) -> Seq<Seq<char>> {
    v.map_values(|t: String| t@)
}

/// A field that is not empty.
pub open spec fn non_empty(f: Seq<char>) -> bool {
    f.len() > 0
}

/// The test for a field that is not empty.
pub open spec fn keeps_non_empty() -> spec_fn(Seq<char>) -> bool {
    |f: Seq<char>| non_empty(f)
}

/// The fields of a text separated by commas, leaving out the empty ones.
pub open spec fn non_empty_fields(text: Seq<char>) -> Seq<Seq<char>> {
    comma_fields(text).filter(keeps_non_empty())
}

/// The fields of a text separated by commas, leaving out the empty ones.
pub fn non_empty_comma_fields(text: &str) -> (fields: Vec<String>)
    ensures
        texts_view(fields@) == non_empty_fields(text@),
{
    let cs = chars_of(text);
    let mut done: Vec<String> = Vec::new();
    let mut current = String::new();
    let mut i: usize = 0;
    assert(cs@.take(0) =~= Seq::<char>::empty());
    assert(texts_view(done@).push(current@) =~= comma_fields(cs@.take(0)));
    while i < cs.len()
        invariant
            0 <= i <= cs.len(),
            cs@ == text@,
            texts_view(done@).push(current@) == comma_fields(cs@.take(i as int)),
        decreases cs.len() - i,
    {
        let ghost before = texts_view(done@).push(current@);
        assert(cs@.take(i + 1).drop_last() =~= cs@.take(i as int));
        assert(cs@.take(i + 1).last() == cs@[i as int]);
        if cs[i] == ',' {
            let ghost d0 = done@;
            done.push(current);
            current = String::new();
            assert(texts_view(done@) =~= texts_view(d0).push(before.last()));
            assert(texts_view(done@).push(current@) =~= before.push(Seq::<char>::empty()));
        } else {
            push_char(&mut current, cs[i]);
            assert(texts_view(done@).push(current@) =~= before.update(
                before.len() - 1,
                before.last().push(cs@[i as int]),
            ));
        }
        i = i + 1;
    }
    assert(cs@.take(i as int) =~= cs@);
    let ghost d0 = done@;
    done.push(current);
    assert(texts_view(done@) =~= texts_view(d0).push(current@));
    let ghost all = texts_view(done@);
    let ghost keep = keeps_non_empty();
    let mut fields: Vec<String> = Vec::new();
    let mut k: usize = 0;
    while k < done.len()
        invariant
            0 <= k <= done.len(),
            all == texts_view(done@),
            forall|f: Seq<char>| #[trigger] keep(f) == non_empty(f),
            texts_view(fields@) == all.take(k as int).filter(keep),
        decreases done.len() - k,
    {
        assert(all.take(k + 1) =~= all.take(k as int).push(all[k as int]));
        proof {
            all.take(k as int).lemma_filter_push(all[k as int], keep);
        }
        let field = done[k].clone();
        assert(field@ == all[k as int]);
        if !field.as_str().is_empty() {
            let ghost f0 = fields@;
            fields.push(field);
            assert(texts_view(fields@) =~= texts_view(f0).push(all[k as int]));
        }
        k = k + 1;
    }
    assert(all.take(k as int) =~= all);
    fields
}

/// The number that a string of decimal digits stands for.
pub open spec fn digits_value(s: Seq<char>) -> int
    decreases s.len(),
{
    if s.len() == 0 {
        0
    } else {
        digits_value(s.drop_last()) * 10 + (s.last() as int - 48)
    }
}

/// The decimal rendering of a number is made of the digits `0` to `9`, reads
/// back as that number, and starts with `0` only for zero itself.
pub proof fn law_decimal_reads_back(n: nat)
    ensures
        decimal(n).len() >= 1,
        forall|i: int| 0 <= i < decimal(n).len() ==> '0' <= #[trigger] decimal(n)[i] <= '9',
        digits_value(decimal(n)) == n,
        n > 0 ==> decimal(n)[0] != '0',
    decreases n,
{
    if n >= 10 {
        law_decimal_reads_back(n / 10);
        let d = decimal(n);
        assert(d.drop_last() =~= decimal(n / 10));
        assert forall|i: int| 0 <= i < d.len() implies '0' <= #[trigger] d[i] <= '9' by {
            if i < d.len() - 1 {
                assert(d[i] == decimal(n / 10)[i]);
            }
        }
        assert(d[0] == decimal(n / 10)[0]);
        assert(d.last() == digit_char(n % 10));
        assert(digit_char(n % 10) as int == 48 + n % 10);
        assert(digits_value(d) == digits_value(decimal(n / 10)) * 10 + (n % 10));
        assert(n == (n / 10) * 10 + n % 10);
    } else {
        assert(decimal(n).drop_last() =~= Seq::<char>::empty());
        assert(digit_char(n) as int == 48 + n);
        assert(digits_value(decimal(n)) == digits_value(Seq::<char>::empty()) * 10 + (decimal(
            n,
        ).last() as int - 48));
    }
}

/// A line with commas between the fields gives back the text it was split from.
pub proof fn law_comma_fields_join_back(s: Seq<char>)
    ensures
        joined_with_commas(comma_fields(s)) == s,
        comma_fields(s).len() >= 1,
        forall|i: int, j: int|
            0 <= i < comma_fields(s).len() && 0 <= j < comma_fields(s)[i].len() ==> #[trigger] comma_fields(
                s,
            )[i][j] != ',',
    decreases s.len(),
{
    if s.len() > 0 {
        let init = s.drop_last();
        law_comma_fields_join_back(init);
        let f = comma_fields(init);
        let n = f.len();
        if s.last() == ',' {
            let g = f.push(Seq::<char>::empty());
            assert(g.drop_last() =~= f);
            assert(joined_with_commas(g) =~= init + ","@ + Seq::<char>::empty());
            assert(init.push(',') =~= s);
            assert(","@ =~= seq![',']) by {
                reveal_strlit(",");
            }
            assert(joined_with_commas(g) =~= s);
            assert forall|i: int, j: int| 0 <= i < g.len() && 0 <= j < g[i].len() implies #[trigger] g[i][j]
                != ',' by {
                assert(f[i][j] != ',');
            }
        } else {
            let g = f.update(n - 1, f.last().push(s.last()));
            if n == 1 {
                assert(joined_with_commas(f) == f[0]);
                assert(joined_with_commas(g) == g[0]);
                assert(g[0] =~= init.push(s.last()));
            } else {
                assert(g.drop_last() =~= f.drop_last());
                assert(joined_with_commas(g) =~= joined_with_commas(f.drop_last()) + ","@ + f.last().push(
                    s.last(),
                ));
                assert(joined_with_commas(f) =~= joined_with_commas(f.drop_last()) + ","@ + f.last());
            }
            assert(init.push(s.last()) =~= s);
            assert forall|i: int, j: int| 0 <= i < g.len() && 0 <= j < g[i].len() implies #[trigger] g[i][j]
                != ',' by {
                if i == n - 1 {
                    if j < f.last().len() {
                        assert(f[n - 1][j] != ',');
                    }
                } else {
                    assert(f[i][j] != ',');
                }
            }
        }
    }
}

} // verus!
