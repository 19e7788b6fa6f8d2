//! Parsing of the service manager's unit listing.
//!
//! The listing marks each failed unit with a bullet glyph at the start of the
//! line (after optional indentation); the unit's name is the second
//! whitespace-separated token of such a line. Everything here is stated over
//! `Seq<char>` views and proved against recursive spec functions.

use vstd::prelude::*;

verus! {

/// Whitespace as the listing uses it inside a line: blank, tab, and the
/// carriage return a line may carry before a break.
pub open spec fn is_space(c: char) -> bool {
    c == ' ' || c == '\t' || c == '\r'
}

/// The sentinel glyph that marks a failed-unit line.
pub open spec fn bullet() -> char {
    '\u{25CF}'
}

/// The line with its leading whitespace removed.
pub open spec fn trim_start_s(s: Seq<char>) -> Seq<char>
    decreases s.len(),
{
    if s.len() > 0 && is_space(s[0]) {
        trim_start_s(s.drop_first())
    } else {
        s
    }
}

/// The line with its leading run of non-whitespace (one token) removed.
pub open spec fn skip_token_s(s: Seq<char>) -> Seq<char>
    decreases s.len(),
{
    if s.len() > 0 && !is_space(s[0]) {
        skip_token_s(s.drop_first())
    } else {
        s
    }
}

/// The leading run of non-whitespace of the line: its first token.
pub open spec fn take_token_s(s: Seq<char>) -> Seq<char>
    decreases s.len(),
{
    if s.len() > 0 && !is_space(s[0]) {
        seq![s[0]] + take_token_s(s.drop_first())
    } else {
        Seq::empty()
    }
}

/// A line reports a failed unit iff it starts with the bullet glyph after
/// optional leading whitespace.
pub open spec fn is_failed_line(line: Seq<char>) -> bool {
    let t = trim_start_s(line);
    t.len() > 0 && t[0] == bullet()
}

/// The unit name on a failed-unit line: the second whitespace-separated token
/// (the first is the bullet marker). `None` on a line that is not a
/// failed-unit line, and on a malformed one that lacks a second token.
pub open spec fn unit_name_of(line: Seq<char>) -> Option<Seq<char>> {
    if is_failed_line(line) {
        let name = take_token_s(trim_start_s(skip_token_s(trim_start_s(line))));
        if name.len() > 0 {
            Some(name)
        } else {
            None
        }
    } else {
        None
    }
}

/// Position of the first line break in `s`, or `s.len()` where there is none.
pub open spec fn first_nl(s: Seq<char>) -> int
    decreases s.len(),
{
    if s.len() == 0 {
        0
    } else if s[0] == '\n' {
        0
    } else {
        1 + first_nl(s.drop_first())
    }
}

pub proof fn lemma_first_nl_bounds(s: Seq<char>)
    ensures
        0 <= first_nl(s) <= s.len(),
        forall|j: int| 0 <= j < first_nl(s) ==> s[j] != '\n',
        first_nl(s) < s.len() ==> s[first_nl(s)] == '\n',
    decreases s.len(),
{
    if s.len() > 0 && s[0] != '\n' {
        lemma_first_nl_bounds(s.drop_first());
        assert forall|j: int| 0 <= j < first_nl(s) implies s[j] != '\n' by {
            if j >= 1 {
                assert(s.drop_first()[j - 1] == s[j]);
                assert(s.drop_first()[j - 1] != '\n');
            }
        }
    }
}

/// `first_nl` is pinned by its characterisation.
pub proof fn lemma_first_nl_is(s: Seq<char>, i: int)
    requires
        0 <= i <= s.len(),
        forall|j: int| 0 <= j < i ==> s[j] != '\n',
        i == s.len() || s[i] == '\n',
    ensures
        first_nl(s) == i,
    decreases i,
{
    if s.len() == 0 {
    } else if i == 0 {
    } else {
        assert(s[0] != '\n');
        lemma_first_nl_is(s.drop_first(), i - 1);
    }
}

/// A line as the splitter hands it on: the break is dropped, and so is a
/// carriage return that stood right before it.
pub open spec fn strip_cr(l: Seq<char>) -> Seq<char> {
    if l.len() > 0 && l.last() == '\r' {
        l.drop_last()
    } else {
        l
    }
}

/// The lines of `s`: split at `'\n'`, each line stripped of a carriage return
/// before the break; a last segment without a break keeps its characters, and
/// a trailing break yields no empty last line.
pub open spec fn lines_of(s: Seq<char>) -> Seq<Seq<char>>
    decreases s.len(),
    via lines_of_decreases
{
    if s.len() == 0 {
        Seq::empty()
    } else if first_nl(s) == s.len() {
        seq![s]
    } else {
        seq![strip_cr(s.take(first_nl(s)))] + lines_of(s.skip(first_nl(s) + 1))
    }
}

#[via_fn]
proof fn lines_of_decreases(s: Seq<char>) {
    lemma_first_nl_bounds(s);
}

/// The lines of a text split at a break boundary are the lines of the two
/// parts.
pub proof fn lemma_lines_prefix(s: Seq<char>, b: int)
    requires
        0 <= b <= s.len(),
        b == 0 || s[b - 1] == '\n',
    ensures
        lines_of(s) == lines_of(s.take(b)) + lines_of(s.skip(b)),
    decreases s.len(),
{
    if b == 0 {
        assert(s.take(0) =~= Seq::<char>::empty());
        assert(s.skip(0) =~= s);
        assert(lines_of(s) =~= lines_of(s.take(0)) + lines_of(s.skip(0)));
    } else {
        lemma_first_nl_bounds(s);
        let f = first_nl(s);
        assert(f <= b - 1) by {
            if f > b - 1 {
                assert(s[b - 1] != '\n');
            }
        }
        let p = s.take(b);
        lemma_first_nl_bounds(p);
        assert(forall|j: int| 0 <= j < f ==> p[j] == s[j] && s[j] != '\n');
        assert(f < p.len() ==> p[f] == s[f]);
        lemma_first_nl_is(p, f);
        let s1 = s.skip(f + 1);
        let b1 = b - f - 1;
        assert(b1 == 0 || s1[b1 - 1] == s[b - 1]);
        lemma_lines_prefix(s1, b1);
        assert(p.take(f) =~= s.take(f));
        assert(p.skip(f + 1) =~= s1.take(b1));
        assert(s1.skip(b1) =~= s.skip(b));
        assert(lines_of(s) == seq![strip_cr(s.take(f))] + lines_of(s1));
        assert(lines_of(p) == seq![strip_cr(p.take(f))] + lines_of(p.skip(f + 1)));
        assert(lines_of(s) =~= lines_of(s.take(b)) + lines_of(s.skip(b)));
    }
}

/// A completed line (its break at `i`) extends the split of its prefix.
pub proof fn lemma_lines_step(s: Seq<char>, b: int, i: int)
    requires
        0 <= b <= i < s.len(),
        b == 0 || s[b - 1] == '\n',
        forall|j: int| b <= j < i ==> s[j] != '\n',
        s[i] == '\n',
    ensures
        lines_of(s.take(i + 1)) == lines_of(s.take(b)) + seq![strip_cr(s.subrange(b, i))],
{
    let p = s.take(i + 1);
    lemma_lines_prefix(p, b);
    assert(p.take(b) =~= s.take(b));
    let t = p.skip(b);
    assert(t.len() == i + 1 - b);
    assert forall|j: int| 0 <= j < i - b implies t[j] != '\n' by {
        assert(t[j] == s[b + j]);
    }
    assert(t[i - b] == s[i]);
    lemma_first_nl_is(t, i - b);
    assert(t.take(i - b) =~= s.subrange(b, i));
    assert(t.skip(i - b + 1) =~= Seq::<char>::empty());
    assert(lines_of(t) == seq![strip_cr(s.subrange(b, i))] + lines_of(Seq::<char>::empty()));
    assert(seq![strip_cr(s.subrange(b, i))] + lines_of(Seq::<char>::empty()) =~= seq![
        strip_cr(s.subrange(b, i)),
    ]);
}

/// The lines of `s`, each as its own `String`.
pub fn split_lines(s: &str) -> (r: Vec<String>)
    ensures
        r.deep_view() == lines_of(s@),
{
    let v = chars_of(s);
    let mut r: Vec<String> = Vec::new();
    let mut b: usize = 0;
    let mut i: usize = 0;
    while i < v.len()
        invariant
            v@ == s@,
            b <= i <= v@.len(),
            b == 0 || v@[b - 1] == '\n',
            forall|j: int| b <= j < i ==> v@[j] != '\n',
            r.deep_view() == lines_of(v@.take(b as int)),
        decreases v@.len() - i,
    {
        if v[i] == '\n' {
            let e = if i > b && v[i - 1] == '\r' {
                i - 1
            } else {
                i
            };
            let line = string_range(&v, b, e);
            proof {
                lemma_lines_step(v@, b as int, i as int);
                assert(strip_cr(v@.subrange(b as int, i as int)) =~= v@.subrange(
                    b as int,
                    e as int,
                ));
            }
            let ghost prev = r.deep_view();
            r.push(line);
            proof {
                assert(r.deep_view() =~= prev + seq![line@]);
            }
            b = i + 1;
        }
        i = i + 1;
    }
    if b < v.len() {
        let line = string_range(&v, b, v.len());
        proof {
            lemma_lines_prefix(v@, b as int);
            let t = v@.skip(b as int);
            assert forall|j: int| 0 <= j < t.len() implies t[j] != '\n' by {
                assert(t[j] == v@[b + j]);
            }
            lemma_first_nl_is(t, t.len() as int);
            assert(line@ =~= t);
        }
        let ghost prev = r.deep_view();
        r.push(line);
        proof {
            assert(r.deep_view() =~= prev + seq![line@]);
            assert(lines_of(v@) =~= prev + seq![line@]);
        }
    } else {
        proof {
            assert(v@.take(b as int) =~= v@);
        }
    }
    r
}

/// The unit names that a sequence of lines yields, in encounter order. A line
/// that is not bullet-marked, or that lacks a second token, contributes
/// nothing.
pub open spec fn names_of_lines(ls: Seq<Seq<char>>) -> Seq<Seq<char>>
    decreases ls.len(),
{
    if ls.len() == 0 {
        Seq::empty()
    } else {
        names_of_lines(ls.drop_last()) + match unit_name_of(ls.last()) {
            Some(n) => seq![n],
            None => Seq::empty(),
        }
    }
}

/// The bullet-marked lines themselves, in encounter order.
pub open spec fn failed_lines_of_lines(ls: Seq<Seq<char>>) -> Seq<Seq<char>>
    decreases ls.len(),
{
    if ls.len() == 0 {
        Seq::empty()
    } else {
        failed_lines_of_lines(ls.drop_last()) + if is_failed_line(ls.last()) {
            seq![ls.last()]
        } else {
            Seq::empty()
        }
    }
}

/// The bullet-marked lines that lack a second token, in encounter order.
pub open spec fn malformed_lines_of_lines(ls: Seq<Seq<char>>) -> Seq<Seq<char>>
    decreases ls.len(),
{
    if ls.len() == 0 {
        Seq::empty()
    } else {
        malformed_lines_of_lines(ls.drop_last()) + if is_failed_line(ls.last())
            && unit_name_of(ls.last()) is None {
            seq![ls.last()]
        } else {
            Seq::empty()
        }
    }
}

/// The bullet-marked lines that carry a unit name, in encounter order.
pub open spec fn wellformed_lines_of_lines(ls: Seq<Seq<char>>) -> Seq<Seq<char>>
    decreases ls.len(),
{
    if ls.len() == 0 {
        Seq::empty()
    } else {
        wellformed_lines_of_lines(ls.drop_last()) + if unit_name_of(ls.last()) is Some {
            seq![ls.last()]
        } else {
            Seq::empty()
        }
    }
}

/// The unit names a whole listing text yields.
pub open spec fn names_of(s: Seq<char>) -> Seq<Seq<char>> {
    names_of_lines(lines_of(s))
}

/// The well-formed bullet-marked lines a whole listing text holds.
pub open spec fn wellformed_of(s: Seq<char>) -> Seq<Seq<char>> {
    wellformed_lines_of_lines(lines_of(s))
}

/// The bullet-marked lines a whole listing text holds.
pub open spec fn failed_lines_of(s: Seq<char>) -> Seq<Seq<char>> {
    failed_lines_of_lines(lines_of(s))
}

/// The malformed bullet-marked lines a whole listing text holds.
pub open spec fn malformed_of(s: Seq<char>) -> Seq<Seq<char>> {
    malformed_lines_of_lines(lines_of(s))
}

/// One more line extends each listing projection by that line's contribution.
pub proof fn lemma_listing_take_step(ls: Seq<Seq<char>>, i: int)
    requires
        0 <= i < ls.len(),
    ensures
        names_of_lines(ls.take(i + 1)) == names_of_lines(ls.take(i)) + (match unit_name_of(
            ls[i],
        ) {
            Some(n) => seq![n],
            None => Seq::<Seq<char>>::empty(),
        }),
        failed_lines_of_lines(ls.take(i + 1)) == failed_lines_of_lines(ls.take(i)) + (
        if is_failed_line(ls[i]) {
            seq![ls[i]]
        } else {
            Seq::<Seq<char>>::empty()
        }),
        malformed_lines_of_lines(ls.take(i + 1)) == malformed_lines_of_lines(ls.take(i)) + (
        if is_failed_line(ls[i]) && unit_name_of(ls[i]) is None {
            seq![ls[i]]
        } else {
            Seq::<Seq<char>>::empty()
        }),
{
    assert(ls.take(i + 1).drop_last() =~= ls.take(i));
    assert(ls.take(i + 1).last() == ls[i]);
}

/// The names a listing yields are exactly those of its well-formed
/// bullet-marked lines, one name per such line, in encounter order: lines
/// without a bullet or without a second token never shift or drop another
/// line's name.
pub proof fn lemma_names_are_wellformed_lines(ls: Seq<Seq<char>>)
    ensures
        names_of_lines(ls) == wellformed_lines_of_lines(ls).map_values(
            (|l: Seq<char>| unit_name_of(l)->Some_0),
        ),
        names_of_lines(ls).len() == wellformed_lines_of_lines(ls).len(),
    decreases ls.len(),
{
    let f = (|l: Seq<char>| unit_name_of(l)->Some_0);
    if ls.len() == 0 {
        assert(names_of_lines(ls) =~= wellformed_lines_of_lines(ls).map_values(f));
    } else {
        let prefix = ls.drop_last();
        lemma_names_are_wellformed_lines(prefix);
        let last = ls.last();
        if unit_name_of(last) is Some {
            assert(wellformed_lines_of_lines(ls).map_values(f) =~= wellformed_lines_of_lines(
                prefix,
            ).map_values(f) + seq![f(last)]);
        } else {
            assert(wellformed_lines_of_lines(ls).map_values(f) =~= wellformed_lines_of_lines(
                prefix,
            ).map_values(f));
        }
        assert(names_of_lines(ls) =~= wellformed_lines_of_lines(ls).map_values(f));
    }
}

/// A listing with no bullet-marked line yields no names and no failed lines.
pub proof fn lemma_no_failed_lines(ls: Seq<Seq<char>>)
    requires
        forall|i: int| 0 <= i < ls.len() ==> !is_failed_line(ls[i]),
    ensures
        names_of_lines(ls).len() == 0,
        failed_lines_of_lines(ls).len() == 0,
    decreases ls.len(),
{
    if ls.len() > 0 {
        assert(!is_failed_line(ls.last()));
        assert(forall|i: int|
            0 <= i < ls.drop_last().len() ==> ls.drop_last()[i] == ls[i]
                && !is_failed_line(#[trigger] ls.drop_last()[i]));
        lemma_no_failed_lines(ls.drop_last());
    }
}

/// On a listing whose bullet-marked lines are all well formed, the names are
/// exactly those lines' unit names, in encounter order; in particular there
/// are as many names as bullet-marked lines.
pub proof fn lemma_all_wellformed(ls: Seq<Seq<char>>)
    requires
        forall|i: int|
            0 <= i < ls.len() && is_failed_line(#[trigger] ls[i]) ==> unit_name_of(ls[i]) is Some,
    ensures
        names_of_lines(ls) == failed_lines_of_lines(ls).map_values(
            (|l: Seq<char>| unit_name_of(l)->Some_0),
        ),
        names_of_lines(ls).len() == failed_lines_of_lines(ls).len(),
    decreases ls.len(),
{
    let f = (|l: Seq<char>| unit_name_of(l)->Some_0);
    if ls.len() == 0 {
        assert(names_of_lines(ls) =~= failed_lines_of_lines(ls).map_values(f));
    } else {
        let prefix = ls.drop_last();
        assert(forall|i: int|
            0 <= i < prefix.len() ==> prefix[i] == ls[i] && (is_failed_line(
                #[trigger] prefix[i],
            ) ==> unit_name_of(prefix[i]) is Some));
        lemma_all_wellformed(prefix);
        let last = ls.last();
        if is_failed_line(last) {
            assert(unit_name_of(last) is Some);
            assert(failed_lines_of_lines(ls) == failed_lines_of_lines(prefix) + seq![last]);
            assert(failed_lines_of_lines(ls).map_values(f) =~= failed_lines_of_lines(
                prefix,
            ).map_values(f) + seq![f(last)]);
            assert(names_of_lines(ls) =~= failed_lines_of_lines(ls).map_values(f));
        } else {
            assert(unit_name_of(last) is None);
            assert(failed_lines_of_lines(ls).map_values(f) =~= failed_lines_of_lines(
                prefix,
            ).map_values(f));
            assert(names_of_lines(ls) =~= failed_lines_of_lines(ls).map_values(f));
        }
    }
}

/// A malformed bullet-marked line contributes no name: dropping it from the
/// listing leaves the extracted names unchanged, so the other lines are
/// unaffected by its presence.
pub proof fn lemma_malformed_line_skipped(ls: Seq<Seq<char>>, i: int)
    requires
        0 <= i < ls.len(),
        unit_name_of(ls[i]) is None,
    ensures
        names_of_lines(ls) == names_of_lines(ls.remove(i)),
    decreases ls.len(),
{
    if i == ls.len() - 1 {
        assert(ls.remove(i) =~= ls.drop_last());
    } else {
        lemma_malformed_line_skipped(ls.drop_last(), i);
        assert(ls.remove(i).drop_last() =~= ls.drop_last().remove(i));
        assert(ls.remove(i).last() == ls.last());
    }
}

/// The bullet-marked lines of the listing that lack a second token, in
/// encounter order: the lines a run warns about and then skips.
pub fn malformed_lines(listing: &str) -> (r: Vec<String>)
    ensures
        r.deep_view() == malformed_of(listing@),
{
    let lines = split_lines(listing);
    let ghost ls = lines.deep_view();
    let mut r: Vec<String> = Vec::new();
    let mut i: usize = 0;
    while i < lines.len()
        invariant
            ls == lines_of(listing@),
            lines.deep_view() == ls,
            i <= lines@.len(),
            ls.len() == lines@.len(),
            r.deep_view() == malformed_lines_of_lines(ls.take(i as int)),
        decreases lines@.len() - i,
    {
        proof {
            assert(ls[i as int] == lines@[i as int]@);
            lemma_listing_take_step(ls, i as int);
        }
        if line_is_failed(lines[i].as_str()) && extract_unit_name(lines[i].as_str()).is_none() {
            let ghost prev = r.deep_view();
            r.push(lines[i].clone());
            proof {
                assert(r.deep_view() =~= prev.push(ls[i as int]));
            }
        }
        i = i + 1;
    }
    proof {
        assert(ls.take(i as int) =~= ls);
    }
    r
}

/// `trim_start_s` lands on the first non-space position.
pub proof fn lemma_trim_start_range(s: Seq<char>, a: int, b: int)
    requires
        0 <= a <= b <= s.len(),
        forall|j: int| a <= j < b ==> is_space(s[j]),
        b == s.len() || !is_space(s[b]),
    ensures
        trim_start_s(s.skip(a)) == s.skip(b),
    decreases b - a,
{
    if a == b {
        if a == s.len() {
            assert(s.skip(a).len() == 0);
        } else {
            assert(s.skip(a)[0] == s[a]);
        }
    } else {
        assert(s.skip(a)[0] == s[a]);
        assert(s.skip(a).drop_first() =~= s.skip(a + 1));
        lemma_trim_start_range(s, a + 1, b);
    }
}

/// `skip_token_s` lands on the first space position.
pub proof fn lemma_skip_token_range(s: Seq<char>, a: int, b: int)
    requires
        0 <= a <= b <= s.len(),
        forall|j: int| a <= j < b ==> !is_space(s[j]),
        b == s.len() || is_space(s[b]),
    ensures
        skip_token_s(s.skip(a)) == s.skip(b),
    decreases b - a,
{
    if a == b {
        if a == s.len() {
            assert(s.skip(a).len() == 0);
        } else {
            assert(s.skip(a)[0] == s[a]);
        }
    } else {
        assert(s.skip(a)[0] == s[a]);
        assert(s.skip(a).drop_first() =~= s.skip(a + 1));
        lemma_skip_token_range(s, a + 1, b);
    }
}

/// `take_token_s` yields exactly the run of non-space characters.
pub proof fn lemma_take_token_range(s: Seq<char>, a: int, b: int)
    requires
        0 <= a <= b <= s.len(),
        forall|j: int| a <= j < b ==> !is_space(s[j]),
        b == s.len() || is_space(s[b]),
    ensures
        take_token_s(s.skip(a)) == s.subrange(a, b),
    decreases b - a,
{
    if a == b {
        if a == s.len() {
            assert(s.skip(a).len() == 0);
        } else {
            assert(s.skip(a)[0] == s[a]);
        }
        assert(take_token_s(s.skip(a)) =~= s.subrange(a, b));
    } else {
        assert(s.skip(a)[0] == s[a]);
        assert(s.skip(a).drop_first() =~= s.skip(a + 1));
        lemma_take_token_range(s, a + 1, b);
        assert(seq![s[a]] + s.subrange(a + 1, b) =~= s.subrange(a, b));
    }
}

/// The characters of `s`, as an indexable vector.
pub fn chars_of(s: &str) -> (v: Vec<char>)
    ensures
        v@ == s@,
{
    let mut v: Vec<char> = Vec::new();
    for c in it: s.chars()
        invariant
            it.seq() == s@,
            v@ == it.seq().take(it.index()),
    {
        v.push(c);
    }
    proof {
        assert(v@ =~= s@);
    }
    v
}

/// Relies on `String::push`: appends exactly the one character.
#[verifier::external_body]
fn push_char(s: &mut String, c: char)
    ensures
        final(s)@ == old(s)@.push(c),
{
    s.push(c);
}

/// The characters `v[from..to]`, as a `String`.
pub fn string_range(v: &Vec<char>, from: usize, to: usize) -> (r: String)
    requires
        from <= to <= v@.len(),
    ensures
        r@ == v@.subrange(from as int, to as int),
{
    let mut r = String::new();
    let mut i: usize = from;
    while i < to
        invariant
            from <= i <= to <= v@.len(),
            r@ == v@.subrange(from as int, i as int),
        decreases to - i,
    {
        push_char(&mut r, v[i]);
        proof {
            assert(v@.subrange(from as int, i as int).push(v@[i as int]) =~= v@.subrange(
                from as int,
                i as int + 1,
            ));
        }
        i = i + 1;
    }
    r
}

/// The first position at or after `from` that does not hold whitespace.
fn first_non_space(v: &Vec<char>, from: usize) -> (i: usize)
    requires
        from <= v@.len(),
    ensures
        from <= i <= v@.len(),
        forall|j: int| from <= j < i ==> is_space(v@[j]),
        i < v@.len() ==> !is_space(v@[i as int]),
{
    let mut i: usize = from;
    while i < v.len() && (v[i] == ' ' || v[i] == '\t' || v[i] == '\r')
        invariant
            from <= i <= v@.len(),
            forall|j: int| from <= j < i ==> is_space(v@[j]),
        decreases v@.len() - i,
    {
        i = i + 1;
    }
    i
}

/// The first position at or after `from` that holds whitespace.
fn first_space(v: &Vec<char>, from: usize) -> (i: usize)
    requires
        from <= v@.len(),
    ensures
        from <= i <= v@.len(),
        forall|j: int| from <= j < i ==> !is_space(v@[j]),
        i < v@.len() ==> is_space(v@[i as int]),
{
    let mut i: usize = from;
    while i < v.len() && !(v[i] == ' ' || v[i] == '\t' || v[i] == '\r')
        invariant
            from <= i <= v@.len(),
            forall|j: int| from <= j < i ==> !is_space(v@[j]),
        decreases v@.len() - i,
    {
        i = i + 1;
    }
    i
}

/// Whether the line reports a failed unit.
pub fn line_is_failed(line: &str) -> (r: bool)
    ensures
        r == is_failed_line(line@),
{
    let v = chars_of(line);
    let i = first_non_space(&v, 0);
    proof {
        lemma_trim_start_range(v@, 0, i as int);
        assert(v@.skip(0) =~= v@);
    }
    i < v.len() && v[i] == '\u{25CF}'
}

/// The unit name on a failed-unit line, or `None` where the line is not
/// bullet-marked or lacks a second token.
pub fn extract_unit_name(line: &str) -> (r: Option<String>)
    ensures
        r is Some <==> unit_name_of(line@) is Some,
        r matches Some(name) ==> unit_name_of(line@) == Some(name@),
{
    let v = chars_of(line);
    let i = first_non_space(&v, 0);
    proof {
        lemma_trim_start_range(v@, 0, i as int);
        assert(v@.skip(0) =~= v@);
    }
    if i == v.len() || v[i] != '\u{25CF}' {
        return None;
    }
    let j = first_space(&v, i);
    let k = first_non_space(&v, j);
    let m = first_space(&v, k);
    proof {
        lemma_skip_token_range(v@, i as int, j as int);
        lemma_trim_start_range(v@, j as int, k as int);
        lemma_take_token_range(v@, k as int, m as int);
    }
    if k == m {
        return None;
    }
    Some(string_range(&v, k, m))
}

} // verus!
