//! Verified text helpers: trimming, splitting, joining, ASCII case folding
//! and substring search, each tied to a recursive specification.
use vstd::prelude::*;
use vstd::string::StrSliceExecFns;
use vstd::string::StringExecFns;

verus! {

/// ASCII whitespace, for trimming feed text.
pub open spec fn is_space(c: char) -> bool {
    c == ' ' || c == '\t' || c == '\n' || c == '\r'
}

/// `s` without its leading whitespace.
pub open spec fn trim_left(s: Seq<char>) -> Seq<char>
    decreases s.len(),
{
    if s.len() > 0 && is_space(s.first()) {
        trim_left(s.drop_first())
    } else {
        s
    }
}

/// `s` without its trailing whitespace.
pub open spec fn trim_right(s: Seq<char>) -> Seq<char>
    decreases s.len(),
{
    if s.len() > 0 && is_space(s.last()) {
        trim_right(s.drop_last())
    } else {
        s
    }
}

/// `s` without leading or trailing whitespace.
pub open spec fn trim_spaces(s: Seq<char>) -> Seq<char> {
    trim_right(trim_left(s))
}

/// `s` neither starts nor ends with whitespace.
pub open spec fn is_trimmed(s: Seq<char>) -> bool {
    s.len() == 0 || (!is_space(s.first()) && !is_space(s.last()))
}

/// The pieces of `s` between occurrences of `sep`: always one more piece
/// than there are separators, and empty pieces are kept.
pub open spec fn split_on(s: Seq<char>, sep: char) -> Seq<Seq<char>>
    decreases s.len(),
{
    if s.len() == 0 {
        seq![Seq::<char>::empty()]
    } else {
        let rest = split_on(s.drop_last(), sep);
        if s.last() == sep {
            rest.push(Seq::<char>::empty())
        } else {
            rest.update(rest.len() - 1, rest.last().push(s.last()))
        }
    }
}

/// The items laid end to end with `sep` between neighbours.
pub open spec fn join_sep(items: Seq<Seq<char>>, sep: Seq<char>) -> Seq<char>
    decreases items.len(),
{
    if items.len() == 0 {
        Seq::<char>::empty()
    } else if items.len() == 1 {
        items[0]
    } else {
        join_sep(items.drop_last(), sep) + sep + items.last()
    }
}

/// Uppercase ASCII letters folded to lowercase; all else unchanged.
pub open spec fn to_lower_char(c: char) -> char {
    if 65 <= c as int <= 90 {
        ((c as u32 + 32) as u8) as char
    } else {
        c
    }
}

/// `s` with every uppercase ASCII letter folded to lowercase.
pub open spec fn lower_seq(s: Seq<char>) -> Seq<char> {
    s.map_values(|c: char| to_lower_char(c))
}

/// `n` occurs in `h` starting at position `k`.
pub open spec fn contains_at(h: Seq<char>, n: Seq<char>, k: int) -> bool {
    0 <= k && k + n.len() <= h.len() && h.subrange(k, k + n.len()) == n
}

/// `n` occurs somewhere in `h`.
pub open spec fn contains_sub(h: Seq<char>, n: Seq<char>) -> bool {
    exists|k: int| contains_at(h, n, k)
}

/// A character a free-text query may hold: a lowercase ASCII letter or
/// whitespace.
pub open spec fn valid_query_char(c: char) -> bool {
    (97 <= c as int <= 122) || is_space(c)
}

/// Every character of `s` is one a query may hold.
pub open spec fn valid_query_text(s: Seq<char>) -> bool {
    forall|i: int| 0 <= i < s.len() ==> valid_query_char(#[trigger] s[i])
}

/// No character of `s` is `c`.
pub open spec fn has_no_char(s: Seq<char>, c: char) -> bool {
    forall|i: int| 0 <= i < s.len() ==> s[i] != c
}

/// Splitting yields at least one piece.
pub proof fn lemma_split_on_len(s: Seq<char>, sep: char)
    ensures
        split_on(s, sep).len() >= 1,
    decreases s.len(),
{
    if s.len() > 0 {
        lemma_split_on_len(s.drop_last(), sep);
    }
}

/// A text free of the separator splits into itself alone.
pub proof fn lemma_split_no_sep(t: Seq<char>, sep: char)
    requires
        has_no_char(t, sep),
    ensures
        split_on(t, sep) =~~= seq![t],
    decreases t.len(),
{
    if t.len() == 0 {
        assert(seq![Seq::<char>::empty()] =~~= seq![t]);
    } else {
        assert(has_no_char(t.drop_last(), sep)) by {
            assert forall|i: int| 0 <= i < t.drop_last().len() implies t.drop_last()[i] != sep by {
                assert(t.drop_last()[i] == t[i]);
            }
        }
        lemma_split_no_sep(t.drop_last(), sep);
        assert(t.last() != sep);
        assert(t.drop_last().push(t.last()) =~= t);
        assert(split_on(t, sep) =~~= seq![t]);
    }
}

/// Appending separator-free text extends the last piece and nothing else.
pub proof fn lemma_split_append_no_sep(u: Seq<char>, t: Seq<char>, sep: char)
    requires
        has_no_char(t, sep),
    ensures
        split_on(u + t, sep) =~~= split_on(u, sep).update(
            split_on(u, sep).len() - 1,
            split_on(u, sep).last() + t,
        ),
    decreases t.len(),
{
    lemma_split_on_len(u, sep);
    let su = split_on(u, sep);
    if t.len() == 0 {
        assert(u + t =~= u);
        assert(su.last() + t =~= su.last());
        assert(su.update(su.len() - 1, su.last()) =~~= su);
    } else {
        assert(has_no_char(t.drop_last(), sep)) by {
            assert forall|i: int| 0 <= i < t.drop_last().len() implies t.drop_last()[i] != sep by {
                assert(t.drop_last()[i] == t[i]);
            }
        }
        lemma_split_append_no_sep(u, t.drop_last(), sep);
        let x = u + t;
        assert(x.len() > 0);
        assert(x.drop_last() =~= u + t.drop_last());
        assert(x.last() == t.last());
        assert(t.last() != sep);
        let rest = split_on(u + t.drop_last(), sep);
        assert(split_on(x, sep) == rest.update(rest.len() - 1, rest.last().push(x.last())));
        assert(rest =~~= su.update(su.len() - 1, su.last() + t.drop_last()));
        assert(rest.len() == su.len());
        assert(rest.last() == su.last() + t.drop_last());
        assert((su.last() + t.drop_last()).push(t.last()) =~= su.last() + t);
        assert(split_on(u + t, sep) =~~= su.update(su.len() - 1, su.last() + t));
    }
}

/// Joining separator-free pieces with the separator and splitting again
/// gives back exactly the pieces.
pub proof fn lemma_split_join(cs: Seq<Seq<char>>, sep: char)
    requires
        cs.len() >= 1,
        forall|i: int| 0 <= i < cs.len() ==> has_no_char(#[trigger] cs[i], sep),
    ensures
        split_on(join_sep(cs, seq![sep]), sep) =~~= cs,
    decreases cs.len(),
{
    if cs.len() == 1 {
        lemma_split_no_sep(cs[0], sep);
        assert(seq![cs[0]] =~~= cs);
    } else {
        let pre = cs.drop_last();
        assert(forall|i: int| 0 <= i < pre.len() ==> has_no_char(#[trigger] pre[i], sep));
        lemma_split_join(pre, sep);
        let j = join_sep(pre, seq![sep]);
        assert(join_sep(cs, seq![sep]) == j + seq![sep] + cs.last());
        let js = j + seq![sep];
        assert(js.drop_last() =~= j);
        assert(js.last() == sep);
        assert(split_on(js, sep) == split_on(j, sep).push(Seq::<char>::empty()));
        lemma_split_append_no_sep(js, cs.last(), sep);
        let sjs = split_on(js, sep);
        assert(sjs.len() == split_on(j, sep).len() + 1);
        assert(sjs.last() == Seq::<char>::empty());
        assert(Seq::<char>::empty() + cs.last() =~= cs.last());
        assert(js + cs.last() =~= join_sep(cs, seq![sep]));
        assert(split_on(join_sep(cs, seq![sep]), sep) =~~= sjs.update(
            sjs.len() - 1,
            cs.last(),
        ));
        assert(split_on(j, sep) =~~= pre);
        assert(sjs.update(sjs.len() - 1, cs.last()) =~~= pre.push(cs.last()));
        assert(pre.push(cs.last()) =~= cs);
    }
}

/// Every piece of a split is free of the separator.
pub proof fn lemma_split_pieces_no_sep(s: Seq<char>, sep: char)
    ensures
        forall|i: int|
            0 <= i < split_on(s, sep).len() ==> has_no_char(#[trigger] split_on(s, sep)[i], sep),
    decreases s.len(),
{
    if s.len() > 0 {
        lemma_split_pieces_no_sep(s.drop_last(), sep);
        lemma_split_on_len(s.drop_last(), sep);
        let rest = split_on(s.drop_last(), sep);
        if s.last() == sep {
            assert forall|i: int| 0 <= i < split_on(s, sep).len() implies has_no_char(
                split_on(s, sep)[i],
                sep,
            ) by {
                if i < rest.len() {
                    assert(split_on(s, sep)[i] == rest[i]);
                } else {
                    assert(split_on(s, sep)[i] == Seq::<char>::empty());
                }
            }
        } else {
            assert forall|i: int| 0 <= i < split_on(s, sep).len() implies has_no_char(
                split_on(s, sep)[i],
                sep,
            ) by {
                if i < rest.len() - 1 {
                    assert(split_on(s, sep)[i] == rest[i]);
                } else {
                    assert(split_on(s, sep)[i] == rest.last().push(s.last()));
                    assert(has_no_char(rest[rest.len() - 1], sep));
                    assert forall|k: int|
                        0 <= k < rest.last().push(s.last()).len() implies rest.last().push(
                        s.last(),
                    )[k] != sep by {
                        if k < rest.last().len() {
                            assert(rest.last().push(s.last())[k] == rest.last()[k]);
                        } else {
                            assert(rest.last().push(s.last())[k] == s.last());
                        }
                    }
                }
            }
        }
    }
}

/// Trimming on the left keeps a suffix of the text.
pub proof fn lemma_trim_left_suffix(s: Seq<char>)
    ensures
        exists|a: int|
            0 <= a <= s.len() && trim_left(s) == #[trigger] s.subrange(a, s.len() as int),
    decreases s.len(),
{
    if s.len() > 0 && is_space(s.first()) {
        lemma_trim_left_suffix(s.drop_first());
        let a = choose|a: int|
            0 <= a <= s.drop_first().len() && trim_left(s.drop_first()) == s.drop_first().subrange(
                a,
                s.drop_first().len() as int,
            );
        assert(s.drop_first().subrange(a, s.drop_first().len() as int) =~= s.subrange(
            a + 1,
            s.len() as int,
        ));
        assert(trim_left(s) == s.subrange(a + 1, s.len() as int));
    } else {
        assert(s.subrange(0, s.len() as int) =~= s);
        assert(trim_left(s) == s.subrange(0, s.len() as int));
    }
}

/// Trimming on the right keeps a prefix of the text.
pub proof fn lemma_trim_right_prefix(s: Seq<char>)
    ensures
        exists|b: int| 0 <= b <= s.len() && trim_right(s) == #[trigger] s.subrange(0, b),
    decreases s.len(),
{
    if s.len() > 0 && is_space(s.last()) {
        lemma_trim_right_prefix(s.drop_last());
        let b = choose|b: int|
            0 <= b <= s.drop_last().len() && trim_right(s.drop_last()) == s.drop_last().subrange(
                0,
                b,
            );
        assert(s.drop_last().subrange(0, b) =~= s.subrange(0, b));
        assert(trim_right(s) == s.subrange(0, b));
    } else {
        assert(s.subrange(0, s.len() as int) =~= s);
        assert(trim_right(s) == s.subrange(0, s.len() as int));
    }
}

/// Trimming never introduces a character.
pub proof fn lemma_trim_no_char(s: Seq<char>, c: char)
    requires
        has_no_char(s, c),
    ensures
        has_no_char(trim_spaces(s), c),
{
    lemma_trim_left_suffix(s);
    let a = choose|a: int|
        0 <= a <= s.len() && trim_left(s) == #[trigger] s.subrange(a, s.len() as int);
    let u = trim_left(s);
    assert(has_no_char(u, c)) by {
        assert forall|i: int| 0 <= i < u.len() implies u[i] != c by {
            assert(u[i] == s[a + i]);
        }
    }
    lemma_trim_right_prefix(u);
    let b = choose|b: int| 0 <= b <= u.len() && trim_right(u) == #[trigger] u.subrange(0, b);
    assert forall|i: int| 0 <= i < trim_spaces(s).len() implies trim_spaces(s)[i] != c by {
        assert(trim_spaces(s)[i] == u[i]);
    }
}

/// After a left trim, no whitespace leads.
pub proof fn lemma_trim_left_result(s: Seq<char>)
    ensures
        trim_left(s).len() > 0 ==> !is_space(trim_left(s).first()),
    decreases s.len(),
{
    if s.len() > 0 && is_space(s.first()) {
        lemma_trim_left_result(s.drop_first());
    }
}

/// After a right trim, no whitespace trails.
pub proof fn lemma_trim_right_result(s: Seq<char>)
    ensures
        trim_right(s).len() > 0 ==> !is_space(trim_right(s).last()),
    decreases s.len(),
{
    if s.len() > 0 && is_space(s.last()) {
        lemma_trim_right_result(s.drop_last());
    }
}

/// A trimmed text neither starts nor ends with whitespace.
pub proof fn lemma_trim_trimmed(s: Seq<char>)
    ensures
        is_trimmed(trim_spaces(s)),
{
    let u = trim_left(s);
    lemma_trim_left_result(s);
    lemma_trim_right_result(u);
    lemma_trim_right_prefix(u);
    let b = choose|b: int| 0 <= b <= u.len() && trim_right(u) == #[trigger] u.subrange(0, b);
    if trim_right(u).len() > 0 {
        assert(trim_right(u).first() == u[0]);
    }
}

/// Trimming a trimmed text changes nothing.
pub proof fn lemma_trim_id(t: Seq<char>)
    requires
        is_trimmed(t),
    ensures
        trim_spaces(t) == t,
{
}

/// When the first `a` characters of `s` are whitespace and the one at `a`
/// (if any) is not, trimming on the left cuts exactly there.
proof fn lemma_trim_left_at(s: Seq<char>, a: int)
    requires
        0 <= a <= s.len(),
        forall|j: int| 0 <= j < a ==> is_space(#[trigger] s[j]),
        a == s.len() || !is_space(s[a]),
    ensures
        trim_left(s) == s.subrange(a, s.len() as int),
    decreases a,
{
    if a == 0 {
        assert(s.subrange(0, s.len() as int) =~= s);
    } else {
        assert(is_space(s.first()));
        lemma_trim_left_at(s.drop_first(), a - 1);
        assert(s.drop_first().subrange(a - 1, s.drop_first().len() as int) =~= s.subrange(
            a,
            s.len() as int,
        ));
    }
}

/// When the characters of `s` from `b` on are whitespace and the one at
/// `b - 1` (if any) is not, trimming on the right cuts exactly there.
proof fn lemma_trim_right_at(s: Seq<char>, b: int)
    requires
        0 <= b <= s.len(),
        forall|j: int| b <= j < s.len() ==> is_space(#[trigger] s[j]),
        b == 0 || !is_space(s[b - 1]),
    ensures
        trim_right(s) == s.subrange(0, b),
    decreases s.len() - b,
{
    if b == s.len() {
        if s.len() > 0 && is_space(s.last()) {
            assert(!is_space(s[b - 1]));
            assert(false);
        }
        assert(s.subrange(0, b) =~= s);
    } else {
        assert(is_space(s.last()));
        lemma_trim_right_at(s.drop_last(), b);
        assert(s.drop_last().subrange(0, b) =~= s.subrange(0, b));
    }
}

/// `c` is whitespace, by the same test the specification uses.
pub fn is_space_char(c: char) -> (r: bool)
    ensures
        r == is_space(c),
{
    c == ' ' || c == '\t' || c == '\n' || c == '\r'
}

/// `s` without leading or trailing whitespace, as a fresh string.
pub fn trim(s: &str) -> (r: String)
    ensures
        r@ == trim_spaces(s@),
{
    let n = s.unicode_len();
    let mut a: usize = 0;
    while a < n && is_space_char(s.get_char(a))
        invariant
            a <= n == s@.len(),
            forall|j: int| 0 <= j < a ==> is_space(#[trigger] s@[j]),
        decreases n - a,
    {
        a = a + 1;
    }
    let mut b: usize = n;
    while b > a && is_space_char(s.get_char(b - 1))
        invariant
            a <= b <= n == s@.len(),
            forall|j: int| b <= j < n ==> is_space(#[trigger] s@[j]),
        decreases b,
    {
        b = b - 1;
    }
    proof {
        lemma_trim_left_at(s@, a as int);
        lemma_trim_right_at(s@.subrange(a as int, n as int), b - a);
        assert(s@.subrange(a as int, n as int).subrange(0, b - a) =~= s@.subrange(
            a as int,
            b as int,
        ));
    }
    String::from_str(s.substring_char(a, b))
}

/// The pieces of `s` between occurrences of `sep`, in order.
pub fn split_char(s: &str, sep: char) -> (r: Vec<String>)
    ensures
        r.deep_view() == split_on(s@, sep),
        r.len() > 0,
{
    let n = s.unicode_len();
    let mut pieces: Vec<String> = Vec::new();
    let mut start: usize = 0;
    let mut i: usize = 0;
    proof {
        assert(s@.subrange(0, 0) =~= Seq::<char>::empty());
        assert(s@.subrange(0, 0) =~= s@.subrange(0, 0 as int));
        assert(split_on(s@.subrange(0, 0), sep) =~~= seq![Seq::<char>::empty()]);
    }
    while i < n
        invariant
            start <= i <= n == s@.len(),
            pieces.deep_view() + seq![s@.subrange(start as int, i as int)] =~~= split_on(
                s@.subrange(0, i as int),
                sep,
            ),
        decreases n - i,
    {
        let ghost pre = s@.subrange(0, i as int);
        let ghost post = s@.subrange(0, i as int + 1);
        proof {
            assert(post.drop_last() =~= pre);
            assert(post.last() == s@[i as int]);
        }
        if s.get_char(i) == sep {
            pieces.push(String::from_str(s.substring_char(start, i)));
            start = i + 1;
            proof {
                assert(s@.subrange(start as int, i as int + 1) =~= Seq::<char>::empty());
                assert(pieces.deep_view() + seq![s@.subrange(start as int, i as int + 1)]
                    =~~= split_on(post, sep));
            }
        } else {
            proof {
                let old_split = split_on(pre, sep);
                assert(old_split.len() > 0);
                assert(s@.subrange(start as int, i as int + 1) =~= s@.subrange(
                    start as int,
                    i as int,
                ).push(s@[i as int]));
                assert(pieces.deep_view() + seq![s@.subrange(start as int, i as int + 1)]
                    =~~= split_on(post, sep));
            }
        }
        i = i + 1;
    }
    pieces.push(String::from_str(s.substring_char(start, n)));
    proof {
        assert(s@.subrange(0, n as int) =~= s@);
        assert(pieces.deep_view() =~~= split_on(s@, sep));
    }
    pieces
}

/// The items joined with `sep` between neighbours.
pub fn join_with(items: &Vec<String>, sep: &str) -> (r: String)
    ensures
        r@ == join_sep(items.deep_view(), sep@),
{
    let mut out = String::new();
    let mut i: usize = 0;
    while i < items.len()
        invariant
            i <= items@.len(),
            out@ == join_sep(items.deep_view().take(i as int), sep@),
        decreases items@.len() - i,
    {
        if i > 0 {
            out.append(sep);
        }
        out.append(items[i].as_str());
        proof {
            let dv = items.deep_view();
            assert(dv[i as int] == items@[i as int]@);
            assert(dv.take(i as int + 1).drop_last() =~= dv.take(i as int));
            assert(dv.take(i as int + 1).last() == dv[i as int]);
            if i == 0 {
                assert(out@ =~= dv.take(1)[0]);
            }
        }
        i = i + 1;
    }
    proof {
        assert(items.deep_view().take(items@.len() as int) =~= items.deep_view());
    }
    out
}

/// `c` folded to lowercase, by the same rule the specification uses.
pub fn lower_char(c: char) -> (r: char)
    ensures
        r == to_lower_char(c),
{
    let v = c as u32;
    if 65 <= v && v <= 90 {
        ((v + 32) as u8) as char
    } else {
        c
    }
}

/// Whether the needle occurs in the case-folded haystack at position `k`.
fn match_at(hay: &str, needle: &str, k: usize) -> (r: bool)
    requires
        k + needle@.len() <= hay@.len(),
    ensures
        r == contains_at(lower_seq(hay@), needle@, k as int),
{
    let hn = hay.unicode_len();
    let nn = needle.unicode_len();
    let mut j: usize = 0;
    while j < nn
        invariant
            j <= nn == needle@.len(),
            k + nn <= hn == hay@.len(),
            forall|j2: int|
                0 <= j2 < j ==> lower_seq(hay@)[k + j2] == #[trigger] needle@[j2],
        decreases nn - j,
    {
        if lower_char(hay.get_char(k + j)) != needle.get_char(j) {
            proof {
                assert(lower_seq(hay@)[k + j] != needle@[j as int]);
                if contains_at(lower_seq(hay@), needle@, k as int) {
                    assert(lower_seq(hay@).subrange(k as int, k + needle@.len())[j as int]
                        == needle@[j as int]);
                }
            }
            return false;
        }
        j = j + 1;
    }
    proof {
        assert(lower_seq(hay@).subrange(k as int, k + needle@.len()) =~= needle@);
    }
    true
}

/// Whether `needle` occurs in `hay` once `hay` is folded to lowercase.
pub fn contains_lower(hay: &str, needle: &str) -> (r: bool)
    ensures
        r == contains_sub(lower_seq(hay@), needle@),
{
    let hn = hay.unicode_len();
    let nn = needle.unicode_len();
    if nn > hn {
        proof {
            assert forall|k: int| !contains_at(lower_seq(hay@), needle@, k) by {}
        }
        return false;
    }
    if nn == 0 {
        proof {
            assert(lower_seq(hay@).subrange(0, 0) =~= needle@);
            assert(contains_at(lower_seq(hay@), needle@, 0));
        }
        return true;
    }
    let mut k: usize = 0;
    while k <= hn - nn
        invariant
            0 < nn <= hn == hay@.len(),
            nn == needle@.len(),
            k <= hn - nn + 1,
            forall|k2: int| 0 <= k2 < k ==> !contains_at(lower_seq(hay@), needle@, k2),
        decreases hn - nn - k + 1,
    {
        if match_at(hay, needle, k) {
            return true;
        }
        k = k + 1;
    }
    proof {
        assert forall|k2: int| !contains_at(lower_seq(hay@), needle@, k2) by {
            if 0 <= k2 <= hn - nn {
                assert(!contains_at(lower_seq(hay@), needle@, k2));
            }
        }
    }
    false
}

/// Whether `s` holds only characters a free-text query may hold.
pub fn is_valid_query(s: &str) -> (r: bool)
    ensures
        r == valid_query_text(s@),
{
    let n = s.unicode_len();
    let mut i: usize = 0;
    while i < n
        invariant
            i <= n == s@.len(),
            forall|j: int| 0 <= j < i ==> valid_query_char(#[trigger] s@[j]),
        decreases n - i,
    {
        let c = s.get_char(i);
        let v = c as u32;
        if !((97 <= v && v <= 122) || is_space_char(c)) {
            return false;
        }
        i = i + 1;
    }
    true
}

} // verus!
