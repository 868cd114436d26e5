//! The date-token mini-language of note names (`YYYY`, `MM`, `dddd`, ...) and
//! its translation into strftime directives.
use vstd::prelude::*;
use crate::text::{chars_of, push_all, string_of};

verus! {

/// Whether `s` begins with `p`.
pub open spec fn starts_with(s: Seq<char>, p: Seq<char>) -> bool {
    p.len() <= s.len() && s.subrange(0, p.len() as int) == p
}

/// Whether `p` occurs somewhere in `s`.
pub open spec fn occurs(s: Seq<char>, p: Seq<char>) -> bool
    decreases s.len(),
{
    if s.len() < p.len() || s.len() == 0 {
        false
    } else {
        starts_with(s, p) || occurs(s.drop_first(), p)
    }
}

/// `s` with every occurrence of `p` replaced by `r`, matches taken from left
/// to right without overlap.
pub open spec fn replace_all(s: Seq<char>, p: Seq<char>, r: Seq<char>) -> Seq<char>
    decreases s.len(),
{
    if p.len() == 0 || s.len() < p.len() {
        s
    } else if starts_with(s, p) {
        r + replace_all(s.subrange(p.len() as int, s.len() as int), p, r)
    } else {
        seq![s[0]] + replace_all(s.drop_first(), p, r)
    }
}

/// `n` copies of `c`.
pub open spec fn run(c: char, n: nat) -> Seq<char> {
    Seq::new(n, |_i: int| c)
}

/// The strftime directive `%x`.
pub open spec fn directive(x: char) -> Seq<char> {
    seq!['%', x]
}

/// The template with its date tokens turned into strftime directives. The
/// rewrite table is applied in order, the longest token of each letter first.
pub open spec fn strftime_of(t: Seq<char>) -> Seq<char> {
    let a = replace_all(t, run('Y', 4), directive('Y'));
    let b = replace_all(a, run('Y', 2), directive('y'));
    let c = replace_all(b, run('M', 4), directive('B'));
    let d = replace_all(c, run('M', 3), directive('b'));
    let e = replace_all(d, run('M', 2), directive('m'));
    let f = replace_all(e, run('D', 2), directive('d'));
    let g = replace_all(f, run('d', 4), directive('A'));
    replace_all(g, run('d', 3), directive('a'))
}

proof fn lemma_occurs_len(s: Seq<char>, p: Seq<char>)
    ensures
        occurs(s, p) ==> s.len() >= p.len(),
{
}

proof fn lemma_no_occurrence_unchanged(s: Seq<char>, p: Seq<char>, r: Seq<char>)
    requires
        p.len() > 0,
        !occurs(s, p),
    ensures
        replace_all(s, p, r) == s,
    decreases s.len(),
{
    if s.len() >= p.len() {
        lemma_no_occurrence_unchanged(s.drop_first(), p, r);
        assert(seq![s[0]] + s.drop_first() =~= s);
    }
}

proof fn lemma_occurs_after_foreign_prefix(r: Seq<char>, x: Seq<char>, c: char, k: nat)
    requires
        k >= 1,
        !r.contains(c),
    ensures
        occurs(r + x, run(c, k)) == occurs(x, run(c, k)),
    decreases r.len(),
{
    if r.len() > 0 {
        assert(r[0] != c);
        assert((r + x).drop_first() =~= r.drop_first() + x);
        assert(!r.drop_first().contains(c)) by {
            if r.drop_first().contains(c) {
                let i = choose|i: int| 0 <= i < r.drop_first().len() && r.drop_first()[i] == c;
                assert(r[i + 1] == c);
            }
        }
        lemma_occurs_after_foreign_prefix(r.drop_first(), x, c, k);
        lemma_occurs_len(x, run(c, k));
        if starts_with(r + x, run(c, k)) {
            assert((r + x).subrange(0, k as int)[0] == run(c, k)[0]);
        }
    } else {
        assert(r + x =~= x);
    }
}

proof fn lemma_no_occurrence_suffix(s: Seq<char>, p: Seq<char>, m: int)
    requires
        0 <= m <= s.len(),
        !occurs(s, p),
    ensures
        !occurs(s.subrange(m, s.len() as int), p),
    decreases m,
{
    if m == 0 {
        assert(s.subrange(0, s.len() as int) =~= s);
    } else if s.len() < p.len() {
        lemma_occurs_len(s.subrange(m, s.len() as int), p);
    } else {
        lemma_no_occurrence_suffix(s.drop_first(), p, m - 1);
        assert(s.drop_first().subrange(m - 1, s.drop_first().len() as int) =~= s.subrange(
            m,
            s.len() as int,
        ));
    }
}

proof fn lemma_start_kept(s: Seq<char>, p: Seq<char>, r: Seq<char>, c: char, j: nat)
    requires
        p.len() >= 1,
        r.len() >= 1,
        r[0] != c,
        j >= 1,
        !starts_with(s, run(c, j)),
    ensures
        !starts_with(replace_all(s, p, r), run(c, j)),
    decreases s.len(),
{
    let res = replace_all(s, p, r);
    if s.len() < p.len() {
    } else if starts_with(s, p) {
        if starts_with(res, run(c, j)) {
            assert(res.subrange(0, j as int)[0] == res[0]);
        }
    } else {
        let rest = s.drop_first();
        if s[0] == c {
            if j == 1 {
                assert(s.subrange(0, 1) =~= run(c, 1));
            } else {
                if starts_with(rest, run(c, (j - 1) as nat)) {
                    assert(s.subrange(0, j as int) =~= run(c, j)) by {
                        assert forall|i: int| 0 <= i < j implies #[trigger] s.subrange(0, j as int)[i] == c by {
                            if i > 0 {
                                assert(rest.subrange(0, j - 1)[i - 1] == c);
                            }
                        }
                    }
                }
                lemma_start_kept(rest, p, r, c, (j - 1) as nat);
                if starts_with(res, run(c, j)) {
                    let tail = replace_all(rest, p, r);
                    assert(res == seq![s[0]] + tail);
                    assert(tail.subrange(0, j - 1) =~= run(c, (j - 1) as nat)) by {
                        assert forall|i: int| 0 <= i < j - 1 implies #[trigger] tail.subrange(0, j - 1)[i]
                            == c by {
                            assert(res.subrange(0, j as int)[i + 1] == c);
                        }
                    }
                }
            }
        } else {
            if starts_with(res, run(c, j)) {
                assert(res.subrange(0, j as int)[0] == res[0]);
            }
        }
    }
}

proof fn lemma_no_run_after(s: Seq<char>, p: Seq<char>, r: Seq<char>, c: char, k: nat)
    requires
        p.len() >= 1,
        r.len() >= 1,
        !r.contains(c),
        k >= 1,
        p == run(c, k) || !occurs(s, run(c, k)),
    ensures
        !occurs(replace_all(s, p, r), run(c, k)),
    decreases s.len(),
{
    let res = replace_all(s, p, r);
    if s.len() < p.len() {
        if p == run(c, k) {
            lemma_occurs_len(s, run(c, k));
        }
    } else if starts_with(s, p) {
        let rest = s.subrange(p.len() as int, s.len() as int);
        if p != run(c, k) {
            lemma_no_occurrence_suffix(s, run(c, k), p.len() as int);
        }
        lemma_no_run_after(rest, p, r, c, k);
        lemma_occurs_after_foreign_prefix(r, replace_all(rest, p, r), c, k);
    } else {
        let rest = s.drop_first();
        lemma_no_run_after(rest, p, r, c, k);
        assert(r[0] != c) by {
            assert(r.contains(r[0]));
        }
        lemma_start_kept(s, p, r, c, k);
        assert(res.drop_first() =~= replace_all(rest, p, r));
    }
}

proof fn lemma_shorter_run(s: Seq<char>, c: char, j: nat, k: nat)
    requires
        1 <= j <= k,
        occurs(s, run(c, k)),
    ensures
        occurs(s, run(c, j)),
    decreases s.len(),
{
    if starts_with(s, run(c, k)) {
        assert(s.subrange(0, j as int) =~= s.subrange(0, k as int).subrange(0, j as int));
        assert(s.subrange(0, j as int) =~= run(c, j));
    } else {
        lemma_shorter_run(s.drop_first(), c, j, k);
    }
}

proof fn lemma_directive_lacks(x: char, c: char)
    requires
        x != c,
        c != '%',
    ensures
        !directive(x).contains(c),
{
    if directive(x).contains(c) {
        let i = choose|i: int| 0 <= i < directive(x).len() && directive(x)[i] == c;
        assert(i == 0 || i == 1);
    }
}

/// No date token is left in a translated template.
pub proof fn lemma_translation_leaves_no_token(t: Seq<char>)
    ensures
        !occurs(strftime_of(t), run('Y', 4)),
        !occurs(strftime_of(t), run('Y', 2)),
        !occurs(strftime_of(t), run('M', 4)),
        !occurs(strftime_of(t), run('M', 3)),
        !occurs(strftime_of(t), run('M', 2)),
        !occurs(strftime_of(t), run('D', 2)),
        !occurs(strftime_of(t), run('d', 4)),
        !occurs(strftime_of(t), run('d', 3)),
{
    let a = replace_all(t, run('Y', 4), directive('Y'));
    let b = replace_all(a, run('Y', 2), directive('y'));
    let c = replace_all(b, run('M', 4), directive('B'));
    let d = replace_all(c, run('M', 3), directive('b'));
    let e = replace_all(d, run('M', 2), directive('m'));
    let f = replace_all(e, run('D', 2), directive('d'));
    let g = replace_all(f, run('d', 4), directive('A'));
    let h = replace_all(g, run('d', 3), directive('a'));
    lemma_directive_lacks('y', 'Y');
    lemma_directive_lacks('B', 'Y');
    lemma_directive_lacks('b', 'Y');
    lemma_directive_lacks('m', 'Y');
    lemma_directive_lacks('d', 'Y');
    lemma_directive_lacks('A', 'Y');
    lemma_directive_lacks('a', 'Y');
    lemma_directive_lacks('m', 'M');
    lemma_directive_lacks('d', 'M');
    lemma_directive_lacks('A', 'M');
    lemma_directive_lacks('a', 'M');
    lemma_directive_lacks('d', 'D');
    lemma_directive_lacks('A', 'D');
    lemma_directive_lacks('a', 'D');
    lemma_directive_lacks('a', 'd');
    lemma_no_run_after(a, run('Y', 2), directive('y'), 'Y', 2);
    lemma_no_run_after(b, run('M', 4), directive('B'), 'Y', 2);
    lemma_no_run_after(c, run('M', 3), directive('b'), 'Y', 2);
    lemma_no_run_after(d, run('M', 2), directive('m'), 'Y', 2);
    lemma_no_run_after(e, run('D', 2), directive('d'), 'Y', 2);
    lemma_no_run_after(f, run('d', 4), directive('A'), 'Y', 2);
    lemma_no_run_after(g, run('d', 3), directive('a'), 'Y', 2);
    lemma_no_run_after(d, run('M', 2), directive('m'), 'M', 2);
    lemma_no_run_after(e, run('D', 2), directive('d'), 'M', 2);
    lemma_no_run_after(f, run('d', 4), directive('A'), 'M', 2);
    lemma_no_run_after(g, run('d', 3), directive('a'), 'M', 2);
    lemma_no_run_after(e, run('D', 2), directive('d'), 'D', 2);
    lemma_no_run_after(f, run('d', 4), directive('A'), 'D', 2);
    lemma_no_run_after(g, run('d', 3), directive('a'), 'D', 2);
    lemma_no_run_after(g, run('d', 3), directive('a'), 'd', 3);
    if occurs(h, run('Y', 4)) {
        lemma_shorter_run(h, 'Y', 2, 4);
    }
    if occurs(h, run('M', 4)) {
        lemma_shorter_run(h, 'M', 2, 4);
    }
    if occurs(h, run('M', 3)) {
        lemma_shorter_run(h, 'M', 2, 3);
    }
    if occurs(h, run('d', 4)) {
        lemma_shorter_run(h, 'd', 3, 4);
    }
}

/// Translating a template twice gives what translating it once gives.
pub proof fn lemma_translation_idempotent(t: Seq<char>)
    ensures
        strftime_of(strftime_of(t)) == strftime_of(t),
{
    let u = strftime_of(t);
    lemma_translation_leaves_no_token(t);
    lemma_no_occurrence_unchanged(u, run('Y', 4), directive('Y'));
    lemma_no_occurrence_unchanged(u, run('Y', 2), directive('y'));
    lemma_no_occurrence_unchanged(u, run('M', 4), directive('B'));
    lemma_no_occurrence_unchanged(u, run('M', 3), directive('b'));
    lemma_no_occurrence_unchanged(u, run('M', 2), directive('m'));
    lemma_no_occurrence_unchanged(u, run('D', 2), directive('d'));
    lemma_no_occurrence_unchanged(u, run('d', 4), directive('A'));
    lemma_no_occurrence_unchanged(u, run('d', 3), directive('a'));
}

/// Whether `pat` stands in `s` at index `i`.
pub fn matches_at(s: &[char], i: usize, pat: &[char]) -> (r: bool)
    requires
        i + pat@.len() <= s@.len(),
    ensures
        r == (s@.subrange(i as int, i + pat@.len()) == pat@),
{
    let mut j: usize = 0;
    while j < pat.len()
        invariant
            j <= pat@.len(),
            i + pat@.len() <= s@.len(),
            s@.len() == s.len(),
            forall|k: int| 0 <= k < j ==> s@[i + k] == pat@[k],
        decreases pat@.len() - j,
    {
        assert(i + j < s@.len());
        if s[i + j] != pat[j] {
            assert(s@.subrange(i as int, i + pat@.len())[j as int] != pat@[j as int]);
            return false;
        }
        j += 1;
    }
    assert(s@.subrange(i as int, i + pat@.len()) =~= pat@);
    true
}

/// `s` with every occurrence of `pat` replaced by `rep`, left to right.
pub fn replace_chars(s: &[char], pat: &[char], rep: &[char]) -> (r: Vec<char>)
    requires
        pat@.len() > 0,
    ensures
        r@ == replace_all(s@, pat@, rep@),
{
    let mut out: Vec<char> = Vec::new();
    let mut i: usize = 0;
    assert(s@.subrange(0, s@.len() as int) =~= s@);
    while i < s.len()
        invariant
            i <= s@.len(),
            pat@.len() > 0,
            out@ + replace_all(s@.subrange(i as int, s@.len() as int), pat@, rep@) == replace_all(
                s@,
                pat@,
                rep@,
            ),
        decreases s@.len() - i,
    {
        let ghost rest = s@.subrange(i as int, s@.len() as int);
        if pat.len() <= s.len() - i && matches_at(s, i, pat) {
            assert(rest.subrange(0, pat@.len() as int) =~= s@.subrange(i as int, i + pat@.len()));
            assert(rest.subrange(pat@.len() as int, rest.len() as int) =~= s@.subrange(
                i + pat@.len(),
                s@.len() as int,
            ));
            let ghost before = out@;
            push_all(&mut out, rep);
            i += pat.len();
            assert(out@ + replace_all(s@.subrange(i as int, s@.len() as int), pat@, rep@)
                =~= before + (rep@ + replace_all(
                s@.subrange(i as int, s@.len() as int),
                pat@,
                rep@,
            )));
        } else {
            let ghost next = s@.subrange(i + 1, s@.len() as int);
            assert(rest =~= seq![s@[i as int]] + next);
            proof {
                if pat@.len() <= rest.len() {
                    assert(rest.subrange(0, pat@.len() as int) =~= s@.subrange(
                        i as int,
                        i + pat@.len(),
                    ));
                    assert(rest.drop_first() =~= next);
                }
            }
            out.push(s[i]);
            i += 1;
        }
    }
    assert(out@ + replace_all(seq![], pat@, rep@) =~= out@);
    out
}

/// Turns the date tokens of `template` into strftime directives.
pub fn to_strftime(template: &str) -> (r: String)
    ensures
        r@ == strftime_of(template@),
{
    let t = chars_of(template);
    let yyyy = vec!['Y', 'Y', 'Y', 'Y'];
    let yy = vec!['Y', 'Y'];
    let mmmm = vec!['M', 'M', 'M', 'M'];
    let mmm = vec!['M', 'M', 'M'];
    let mm = vec!['M', 'M'];
    let dd = vec!['D', 'D'];
    let wwww = vec!['d', 'd', 'd', 'd'];
    let www = vec!['d', 'd', 'd'];
    assert(yyyy@ =~= run('Y', 4));
    assert(yy@ =~= run('Y', 2));
    assert(mmmm@ =~= run('M', 4));
    assert(mmm@ =~= run('M', 3));
    assert(mm@ =~= run('M', 2));
    assert(dd@ =~= run('D', 2));
    assert(wwww@ =~= run('d', 4));
    assert(www@ =~= run('d', 3));
    let d_year = vec!['%', 'Y'];
    let d_year2 = vec!['%', 'y'];
    let d_month_name = vec!['%', 'B'];
    let d_month_abbr = vec!['%', 'b'];
    let d_month = vec!['%', 'm'];
    let d_day = vec!['%', 'd'];
    let d_weekday = vec!['%', 'A'];
    let d_weekday_abbr = vec!['%', 'a'];
    assert(d_year@ =~= directive('Y'));
    assert(d_year2@ =~= directive('y'));
    assert(d_month_name@ =~= directive('B'));
    assert(d_month_abbr@ =~= directive('b'));
    assert(d_month@ =~= directive('m'));
    assert(d_day@ =~= directive('d'));
    assert(d_weekday@ =~= directive('A'));
    assert(d_weekday_abbr@ =~= directive('a'));
    let a = replace_chars(t.as_slice(), yyyy.as_slice(), d_year.as_slice());
    let b = replace_chars(a.as_slice(), yy.as_slice(), d_year2.as_slice());
    let c = replace_chars(b.as_slice(), mmmm.as_slice(), d_month_name.as_slice());
    let d = replace_chars(c.as_slice(), mmm.as_slice(), d_month_abbr.as_slice());
    let e = replace_chars(d.as_slice(), mm.as_slice(), d_month.as_slice());
    let f = replace_chars(e.as_slice(), dd.as_slice(), d_day.as_slice());
    let g = replace_chars(f.as_slice(), wwww.as_slice(), d_weekday.as_slice());
    let h = replace_chars(g.as_slice(), www.as_slice(), d_weekday_abbr.as_slice());
    string_of(&h)
}

} // verus!
