//! Small verified text utilities shared by the rest of the crate: character
//! access, string equality, splitting source text into lines and joining
//! string lists with a separator.

use vstd::prelude::*;

verus! {

/// Relies on `String::push` from std: appends the given character to the end
/// of this `String`.
pub assume_specification[ String::push ](s: &mut String, ch: char)
    ensures
        final(s)@ == old(s)@.push(ch),
;

/// Character-wise string equality.
pub fn str_eq(a: &str, b: &str) -> (r: bool)
    ensures
        r == (a@ == b@),
{
    let alen = a.unicode_len();
    let blen = b.unicode_len();
    if alen != blen {
        assert(a@ != b@) by {
            assert(a@.len() != b@.len());
        }
        return false;
    }
    let mut i: usize = 0;
    while i < alen
        invariant
            alen == a@.len(),
            blen == b@.len(),
            alen == blen,
            i <= alen,
            forall|j: int| 0 <= j < i ==> a@[j] == b@[j],
        decreases alen - i,
    {
        if a.get_char(i) != b.get_char(i) {
            return false;
        }
        i += 1;
    }
    assert(a@ =~= b@);
    true
}

/// The text that results from placing `sep` between consecutive items.
pub open spec fn join_texts(items: Seq<Seq<char>>, sep: Seq<char>) -> Seq<char>
    decreases items.len(),
{
    if items.len() == 0 {
        Seq::empty()
    } else if items.len() == 1 {
        items[0]
    } else {
        items[0] + sep + join_texts(items.drop_first(), sep)
    }
}

/// Appending one more item to a join adds a separator exactly when the list
/// was not empty.
pub proof fn lemma_join_texts_push(items: Seq<Seq<char>>, sep: Seq<char>, x: Seq<char>)
    ensures
        join_texts(items.push(x), sep) == if items.len() == 0 {
            x
        } else {
            join_texts(items, sep) + sep + x
        },
    decreases items.len(),
{
    if items.len() == 0 {
        assert(items.push(x) =~= seq![x]);
        assert(join_texts(items.push(x), sep) == x);
    } else if items.len() == 1 {
        assert(items.push(x).drop_first() =~= seq![x]);
        assert(items.push(x)[0] == items[0]);
        assert(seq![x].len() == 1);
        assert(seq![x][0] == x);
        assert(join_texts(seq![x], sep) == x);
        assert(items.push(x).len() == 2);
        assert(join_texts(items.push(x), sep) == items[0] + sep + x);
        assert(join_texts(items, sep) == items[0]);
    } else {
        assert(items.push(x).drop_first() =~= items.drop_first().push(x));
        assert(items.push(x)[0] == items[0]);
        lemma_join_texts_push(items.drop_first(), sep, x);
        assert(join_texts(items.push(x), sep) == items[0] + sep + (join_texts(
            items.drop_first(),
            sep,
        ) + sep + x));
        assert(items[0] + sep + (join_texts(items.drop_first(), sep) + sep + x) =~= (items[0] + sep
            + join_texts(items.drop_first(), sep)) + sep + x);
    }
}

/// Joins the strings in `items` with the separator `sep`.
pub fn join_with(items: &Vec<String>, sep: &str) -> (r: String)
    ensures
        r@ == join_texts(items@.map_values(|s: String| s@), sep@),
{
    let ghost m = items@.map_values(|s: String| s@);
    let mut out = String::new();
    let mut i: usize = 0;
    while i < items.len()
        invariant
            i <= items@.len(),
            m == items@.map_values(|s: String| s@),
            out@ == join_texts(m.take(i as int), sep@),
        decreases items@.len() - i,
    {
        if i > 0 {
            out.append(sep);
        }
        out.append(items[i].as_str());
        proof {
            lemma_join_texts_push(m.take(i as int), sep@, m[i as int]);
            assert(m.take(i + 1 as int) =~= m.take(i as int).push(m[i as int]));
            if i > 0 {
                assert(out@ =~= join_texts(m.take(i as int), sep@) + sep@ + m[i as int]);
            }
        }
        i += 1;
    }
    proof {
        assert(m.take(m.len() as int) =~= m);
    }
    out
}

/// The views of a list of strings.
pub open spec fn strings_view(v: Seq<String>) -> Seq<Seq<char>> {
    v.map_values(|s: String| s@)
}

/// The concatenation of all items, in order.
pub open spec fn concat_texts(items: Seq<Seq<char>>) -> Seq<char>
    decreases items.len(),
{
    if items.len() == 0 {
        Seq::empty()
    } else {
        items[0] + concat_texts(items.drop_first())
    }
}

/// Concatenation of all items grows one item at a time from the right.
pub proof fn lemma_concat_texts_push(items: Seq<Seq<char>>, x: Seq<char>)
    ensures
        concat_texts(items.push(x)) == concat_texts(items) + x,
    decreases items.len(),
{
    if items.len() == 0 {
        assert(items.push(x) =~= seq![x]);
        assert(seq![x].drop_first() =~= Seq::<Seq<char>>::empty());
        assert(seq![x][0] == x);
        assert(concat_texts(seq![x]) == x + concat_texts(Seq::<Seq<char>>::empty()));
        assert(x + Seq::<char>::empty() =~= x);
        assert(concat_texts(items) + x =~= x);
    } else {
        assert(items.push(x).drop_first() =~= items.drop_first().push(x));
        assert(items.push(x)[0] == items[0]);
        lemma_concat_texts_push(items.drop_first(), x);
        assert(items[0] + (concat_texts(items.drop_first()) + x) =~= (items[0] + concat_texts(
            items.drop_first(),
        )) + x);
    }
}

/// The position of the first occurrence of `c` in `s` at or after `from`,
/// or the length of `s` when there is none.
pub open spec fn find_char(s: Seq<char>, c: char, from: int) -> int
    decreases s.len() - from,
{
    if from < 0 || from >= s.len() {
        s.len() as int
    } else if s[from] == c {
        from
    } else {
        find_char(s, c, from + 1)
    }
}

/// The found position is in range, holds the character, and nothing
/// before it does.
pub proof fn lemma_find_char_bounds(s: Seq<char>, c: char, from: int)
    requires
        0 <= from <= s.len(),
    ensures
        from <= find_char(s, c, from) <= s.len(),
        find_char(s, c, from) < s.len() ==> s[find_char(s, c, from)] == c,
        forall|j: int| from <= j < find_char(s, c, from) ==> s[j] != c,
    decreases s.len() - from,
{
    if from < s.len() && s[from] != c {
        lemma_find_char_bounds(s, c, from + 1);
    }
}

/// The number of positions where the two-character pattern `a b` occurs in
/// `s`.
pub open spec fn count2(s: Seq<char>, a: char, b: char) -> int
    decreases s.len(),
{
    if s.len() < 2 {
        0
    } else {
        (if s[0] == a && s[1] == b {
            1int
        } else {
            0int
        }) + count2(s.drop_first(), a, b)
    }
}

/// A count is never negative.
pub proof fn lemma_count2_nonneg(s: Seq<char>, a: char, b: char)
    ensures
        count2(s, a, b) >= 0,
    decreases s.len(),
{
    if s.len() >= 2 {
        lemma_count2_nonneg(s.drop_first(), a, b);
    }
}

/// The count is zero exactly when the pattern occurs at no position.
pub proof fn lemma_count2_zero_char(s: Seq<char>, a: char, b: char)
    ensures
        (count2(s, a, b) == 0) <==> (forall|k: int|
            0 <= k < s.len() - 1 ==> !((#[trigger] s[k]) == a && s[k + 1] == b)),
    decreases s.len(),
{
    if s.len() >= 2 {
        lemma_count2_zero_char(s.drop_first(), a, b);
        lemma_count2_nonneg(s.drop_first(), a, b);
        assert(forall|k: int| 0 <= k < s.drop_first().len() ==> s.drop_first()[k] == s[k + 1]);
        if count2(s, a, b) == 0 {
            assert(!(s[0] == a && s[1] == b));
            assert(count2(s.drop_first(), a, b) == 0);
            assert forall|k: int| 1 <= k < s.len() - 1 implies !((#[trigger] s[k]) == a && s[k + 1]
                == b) by {
                assert(s[k] == s.drop_first()[k - 1]);
                assert(s[k + 1] == s.drop_first()[k]);
                assert(!(s.drop_first()[k - 1] == a && s.drop_first()[k] == b));
            }
        }
        if forall|k: int| 0 <= k < s.len() - 1 ==> !((#[trigger] s[k]) == a && s[k + 1] == b) {
            assert(forall|k: int|
                0 <= k < s.drop_first().len() - 1 ==> !((#[trigger] s.drop_first()[k]) == a
                    && s.drop_first()[k + 1] == b)) by {
                assert(forall|k: int|
                    0 <= k < s.drop_first().len() - 1 ==> (s.drop_first()[k] == s[k + 1]
                        && s.drop_first()[k + 1] == s[k + 2] && !((#[trigger] s[k + 1]) == a && s[k
                        + 2] == b)));
            }
        }
    }
}

/// A stretch of a text without the pattern is itself without the pattern.
pub proof fn lemma_count2_subrange_zero(s: Seq<char>, a: char, b: char, i: int, j: int)
    requires
        count2(s, a, b) == 0,
        0 <= i <= j <= s.len(),
    ensures
        count2(s.subrange(i, j), a, b) == 0,
{
    lemma_count2_zero_char(s, a, b);
    lemma_count2_zero_char(s.subrange(i, j), a, b);
    let sub = s.subrange(i, j);
    assert(forall|k: int|
        0 <= k < sub.len() - 1 ==> ((#[trigger] sub[k]) == s[i + k] && sub[k + 1] == s[i + k
            + 1]));
    assert(forall|k: int| 0 <= k < sub.len() - 1 ==> !((#[trigger] sub[k]) == a && sub[k + 1] == b))
        by {
        assert(forall|k: int|
            0 <= k < sub.len() - 1 ==> !((#[trigger] s[i + k]) == a && s[i + k + 1] == b));
    }
}

/// Counting a two-character pattern distributes over concatenation, up to one
/// extra occurrence straddling the boundary.
pub proof fn lemma_count2_concat(x: Seq<char>, y: Seq<char>, a: char, b: char)
    ensures
        count2(x + y, a, b) == count2(x, a, b) + count2(y, a, b) + (if x.len() > 0 && y.len() > 0
            && x.last() == a && y.first() == b {
            1int
        } else {
            0int
        }),
    decreases x.len(),
{
    if x.len() == 0 {
        assert(x + y =~= y);
    } else if x.len() == 1 {
        if y.len() == 0 {
            assert(x + y =~= x);
        } else {
            assert((x + y)[0] == x[0]);
            assert((x + y)[1] == y[0]);
            assert((x + y).drop_first() =~= y);
            assert((x + y).len() >= 2);
            assert(count2(x + y, a, b) == (if x[0] == a && y[0] == b {
                1int
            } else {
                0int
            }) + count2(y, a, b));
            assert(count2(x, a, b) == 0);
        }
    } else {
        assert((x + y).drop_first() =~= x.drop_first() + y);
        assert((x + y)[0] == x[0]);
        assert((x + y)[1] == x[1]);
        lemma_count2_concat(x.drop_first(), y, a, b);
        assert(x.drop_first().len() > 0);
        assert(x.drop_first().last() == x.last());
        assert(count2(x + y, a, b) == (if x[0] == a && x[1] == b {
            1int
        } else {
            0int
        }) + count2(x.drop_first() + y, a, b));
    }
}

/// A position with no earlier occurrence, holding `c` or sitting at the end,
/// is the one `find_char` returns.
pub proof fn lemma_find_char_is(s: Seq<char>, c: char, from: int, k: int)
    requires
        0 <= from <= k <= s.len(),
        forall|j: int| from <= j < k ==> s[j] != c,
        k < s.len() ==> s[k] == c,
    ensures
        find_char(s, c, from) == k,
{
    lemma_find_char_bounds(s, c, from);
    let f = find_char(s, c, from);
    if f < k {
        assert(s[f] == c);
        assert(s[f] != c);
    }
    if f > k {
        assert(k < s.len());
        assert(s[k] != c);
    }
}

/// The lines of `s`, split on the newline character; the separators are not
/// part of any line, and text with no newline is a single line.
pub open spec fn split_lines_spec(s: Seq<char>) -> Seq<Seq<char>>
    decreases s.len(),
    via split_lines_spec_decreases
{
    let k = find_char(s, '\n', 0);
    if k == s.len() {
        seq![s]
    } else {
        seq![s.take(k)] + split_lines_spec(s.subrange(k + 1, s.len() as int))
    }
}

#[via_fn]
proof fn split_lines_spec_decreases(s: Seq<char>) {
    lemma_find_char_bounds(s, '\n', 0);
}

/// Splits source text into lines on the newline character.
pub fn split_lines(content: &str) -> (r: Vec<String>)
    ensures
        r@.map_values(|l: String| l@) == split_lines_spec(content@),
{
    let n = content.unicode_len();
    let mut out: Vec<String> = Vec::new();
    let mut start: usize = 0;
    let mut i: usize = 0;
    proof {
        assert(content@.subrange(0, n as int) =~= content@);
        assert(out@.map_values(|l: String| l@) =~= Seq::<Seq<char>>::empty());
        assert(Seq::<Seq<char>>::empty() + split_lines_spec(content@) =~= split_lines_spec(
            content@,
        ));
    }
    while i < n
        invariant
            n == content@.len(),
            start <= i <= n,
            split_lines_spec(content@) =~= out@.map_values(|l: String| l@) + split_lines_spec(
                content@.subrange(start as int, n as int),
            ),
            forall|j: int| start <= j < i ==> content@[j] != '\n',
        decreases n - i,
    {
        if content.get_char(i) == '\n' {
            let line = content.substring_char(start, i).to_owned();
            proof {
                let rest = content@.subrange(start as int, n as int);
                lemma_find_char_bounds(rest, '\n', 0);
                assert(forall|j: int|
                    0 <= j < i - start ==> rest[j] == content@[start + j] && rest[j] != '\n');
                assert(rest[i - start] == '\n');
                assert(find_char(rest, '\n', 0) == i - start) by {
                    let k = find_char(rest, '\n', 0);
                    if k < i - start {
                        assert(rest[k] != '\n');
                    }
                    if k > i - start {
                        assert(rest[i - start] != '\n');
                    }
                }
                assert(rest.take(i - start) =~= content@.subrange(start as int, i as int));
                assert(rest.subrange(i - start + 1, rest.len() as int) =~= content@.subrange(
                    i + 1 as int,
                    n as int,
                ));
                assert((out@.map_values(|l: String| l@)).push(content@.subrange(start as int, i as int))
                    =~= out@.map_values(|l: String| l@) + seq![
                    content@.subrange(start as int, i as int)]);
                assert(out@.push(line).map_values(|l: String| l@) =~= out@.map_values(
                    |l: String| l@,
                ).push(line@));
            }
            out.push(line);
            start = i + 1;
        }
        i += 1;
    }
    let line = content.substring_char(start, n).to_owned();
    proof {
        let rest = content@.subrange(start as int, n as int);
        lemma_find_char_bounds(rest, '\n', 0);
        assert(forall|j: int|
            0 <= j < n - start ==> rest[j] == content@[start + j] && rest[j] != '\n');
        assert(find_char(rest, '\n', 0) == rest.len());
        assert(rest =~= content@.subrange(start as int, n as int));
        assert(split_lines_spec(rest) == seq![rest]);
        assert(out@.push(line).map_values(|l: String| l@) =~= out@.map_values(|l: String| l@)
            + seq![rest]);
    }
    out.push(line);
    out
}

} // verus!
