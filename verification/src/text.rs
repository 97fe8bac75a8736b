//! Splitting and joining of character sequences on a delimiter.
//!
//! `split_on` mirrors the leftmost, non-overlapping semantics of
//! `str::split`, and `join_with` is its inverse under the conditions proved
//! by `lemma_split_of_join`. Both directions of the encode/decode engine are
//! specified in terms of these functions.

use vstd::prelude::*;

verus! {

/// The separator `sep` occurs in `s` starting at position `i`.
pub open spec fn occurs_at(s: Seq<char>, sep: Seq<char>, i: int) -> bool {
    0 <= i && i + sep.len() <= s.len() && s.subrange(i, i + sep.len()) == sep
}

/// Split `s` on the leftmost occurrence of `sep`, then recurse on the rest:
/// the semantics of `str::split`. An empty separator leaves `s` whole.
pub open spec fn split_on(s: Seq<char>, sep: Seq<char>) -> Seq<Seq<char>>
    decreases s.len(),
{
    if sep.len() == 0 || s.len() < sep.len() {
        seq![s]
    } else if s.subrange(0, sep.len() as int) == sep {
        seq![Seq::<char>::empty()] + split_on(s.skip(sep.len() as int), sep)
    } else {
        let r = split_on(s.skip(1), sep);
        seq![seq![s[0]] + r[0]] + r.skip(1)
    }
}

/// Interleave the pieces with the separator: the semantics of `[..].join`.
pub open spec fn join_with(pieces: Seq<Seq<char>>, sep: Seq<char>) -> Seq<char>
    decreases pieces.len(),
{
    if pieces.len() == 0 {
        Seq::empty()
    } else if pieces.len() == 1 {
        pieces[0]
    } else {
        pieces[0] + sep + join_with(pieces.skip(1), sep)
    }
}

/// A split yields at least one piece.
pub proof fn lemma_split_len(s: Seq<char>, sep: Seq<char>)
    ensures
        split_on(s, sep).len() >= 1,
    decreases s.len(),
{
    if sep.len() == 0 || s.len() < sep.len() {
    } else if s.subrange(0, sep.len() as int) == sep {
        lemma_split_len(s.skip(sep.len() as int), sep);
    } else {
        lemma_split_len(s.skip(1), sep);
    }
}

/// Occurrences in a suffix are occurrences in the whole, shifted.
pub proof fn lemma_occurs_in_skip(s: Seq<char>, sep: Seq<char>, t: int, i: int)
    requires
        0 <= t <= s.len(),
    ensures
        occurs_at(s.skip(t), sep, i) <==> (0 <= i && occurs_at(s, sep, i + t)),
{
    if 0 <= i && i + sep.len() <= s.len() - t {
        assert(s.skip(t).subrange(i, i + sep.len()) =~= s.subrange(i + t, i + t + sep.len()));
    }
}

/// Splitting a sequence free of the separator leaves it whole.
pub proof fn lemma_split_no_occurrence(s: Seq<char>, sep: Seq<char>)
    requires
        sep.len() >= 1,
        forall|i: int| !occurs_at(s, sep, i),
    ensures
        split_on(s, sep) == seq![s],
    decreases s.len(),
{
    if s.len() < sep.len() {
    } else if s.subrange(0, sep.len() as int) == sep {
        assert(occurs_at(s, sep, 0));
    } else {
        assert forall|i: int| !occurs_at(s.skip(1), sep, i) by {
            lemma_occurs_in_skip(s, sep, 1, i);
        }
        lemma_split_no_occurrence(s.skip(1), sep);
        assert(seq![s[0]] + s.skip(1) =~= s);
        assert(split_on(s, sep) =~~= seq![s]);
    }
}

/// Splitting at the leftmost occurrence: the part before it is the first
/// piece, and the rest is split recursively.
pub proof fn lemma_split_at_first(s: Seq<char>, sep: Seq<char>, k: int)
    requires
        sep.len() >= 1,
        occurs_at(s, sep, k),
        forall|i: int| 0 <= i < k ==> !occurs_at(s, sep, i),
    ensures
        split_on(s, sep) == seq![s.take(k)] + split_on(s.skip(k + sep.len() as int), sep),
    decreases k,
{
    let n = sep.len() as int;
    if k == 0 {
        assert(s.subrange(0, n) == sep);
        assert(s.take(0) =~= Seq::<char>::empty());
        assert(split_on(s, sep) =~~= seq![s.take(0)] + split_on(s.skip(n), sep));
    } else {
        assert(!occurs_at(s, sep, 0));
        assert(s.subrange(0, n) != sep);
        let r = split_on(s.skip(1), sep);
        assert(occurs_at(s.skip(1), sep, k - 1)) by {
            lemma_occurs_in_skip(s, sep, 1, k - 1);
        }
        assert forall|i: int| 0 <= i < k - 1 implies !occurs_at(s.skip(1), sep, i) by {
            lemma_occurs_in_skip(s, sep, 1, i);
        }
        lemma_split_at_first(s.skip(1), sep, k - 1);
        assert(r == seq![s.skip(1).take(k - 1)] + split_on(s.skip(1).skip(k - 1 + n), sep));
        assert(s.skip(1).skip(k - 1 + n) =~= s.skip(k + n));
        assert(seq![s[0]] + r[0] =~= s.take(k)) by {
            assert(s.skip(1).take(k - 1) =~= s.subrange(1, k));
        }
        assert(r.skip(1) =~~= split_on(s.skip(k + n), sep));
        assert(split_on(s, sep) =~~= seq![s.take(k)] + split_on(s.skip(k + n), sep));
    }
}

/// Unfolding `join_with` at the front.
pub proof fn lemma_join_cons(p: Seq<char>, rest: Seq<Seq<char>>, sep: Seq<char>)
    ensures
        rest.len() == 0 ==> join_with(seq![p] + rest, sep) == p,
        rest.len() >= 1 ==> join_with(seq![p] + rest, sep) == p + sep + join_with(rest, sep),
{
    let pieces = seq![p] + rest;
    assert(pieces[0] == p);
    if rest.len() == 0 {
        assert(pieces.len() == 1);
    } else {
        assert(pieces.skip(1) =~~= rest);
    }
}

/// Unfolding `join_with` at the back.
pub proof fn lemma_join_push(pieces: Seq<Seq<char>>, x: Seq<char>, sep: Seq<char>)
    ensures
        pieces.len() == 0 ==> join_with(pieces.push(x), sep) == x,
        pieces.len() >= 1 ==> join_with(pieces.push(x), sep) == join_with(pieces, sep) + sep + x,
    decreases pieces.len(),
{
    if pieces.len() == 0 {
        assert(pieces.push(x)[0] == x);
    } else if pieces.len() == 1 {
        let q = pieces.push(x);
        assert(q.len() == 2);
        assert(q[0] == pieces[0]);
        assert(q.skip(1) =~~= seq![x]);
        assert(join_with(q.skip(1), sep) == x);
    } else {
        let q = pieces.push(x);
        assert(q.skip(1) =~~= pieces.skip(1).push(x));
        lemma_join_push(pieces.skip(1), x, sep);
        assert(q[0] == pieces[0]);
        assert(join_with(q, sep) == q[0] + sep + join_with(q.skip(1), sep));
        assert(join_with(q, sep) =~= join_with(pieces, sep) + sep + x);
    }
}

/// Joining the pieces of a split restores the original sequence.
pub proof fn lemma_join_of_split(s: Seq<char>, sep: Seq<char>)
    requires
        sep.len() >= 1,
    ensures
        join_with(split_on(s, sep), sep) == s,
    decreases s.len(),
{
    let n = sep.len() as int;
    if s.len() < sep.len() {
    } else if s.subrange(0, n) == sep {
        let rest = split_on(s.skip(n), sep);
        lemma_split_len(s.skip(n), sep);
        lemma_join_of_split(s.skip(n), sep);
        lemma_join_cons(Seq::<char>::empty(), rest, sep);
        assert(Seq::<char>::empty() + sep + s.skip(n) =~= s);
    } else {
        let r = split_on(s.skip(1), sep);
        lemma_split_len(s.skip(1), sep);
        lemma_join_of_split(s.skip(1), sep);
        let first = seq![s[0]] + r[0];
        if r.len() == 1 {
            assert(join_with(r, sep) == r[0]);
            assert(split_on(s, sep) =~~= seq![first]);
            assert(join_with(split_on(s, sep), sep) == first);
            assert(first =~= s);
        } else {
            lemma_join_cons(r[0], r.skip(1), sep);
            assert(r =~~= seq![r[0]] + r.skip(1));
            assert(join_with(r, sep) == r[0] + sep + join_with(r.skip(1), sep));
            lemma_join_cons(first, r.skip(1), sep);
            assert(split_on(s, sep) =~~= seq![first] + r.skip(1));
            assert(join_with(split_on(s, sep), sep) == first + sep + join_with(r.skip(1), sep));
            assert(first + sep + join_with(r.skip(1), sep) =~= seq![s[0]] + join_with(r, sep));
            assert(seq![s[0]] + s.skip(1) =~= s);
        }
    }
}

/// Every character of every piece of a split satisfies whatever holds of
/// every character of the input.
pub proof fn lemma_split_preserves(s: Seq<char>, sep: Seq<char>, p: spec_fn(char) -> bool)
    requires
        sep.len() >= 1,
        forall|i: int| 0 <= i < s.len() ==> p(s[i]),
    ensures
        forall|k: int, j: int|
            0 <= k < split_on(s, sep).len() && 0 <= j < split_on(s, sep)[k].len() ==> p(
                split_on(s, sep)[k][j],
            ),
    decreases s.len(),
{
    let n = sep.len() as int;
    if s.len() < sep.len() {
    } else if s.subrange(0, n) == sep {
        lemma_split_preserves(s.skip(n), sep, p);
        let pieces = split_on(s, sep);
        let rest = split_on(s.skip(n), sep);
        assert forall|k: int, j: int|
            0 <= k < pieces.len() && 0 <= j < pieces[k].len() implies p(pieces[k][j]) by {
            assert(pieces[k] == rest[k - 1]);
        }
    } else {
        lemma_split_preserves(s.skip(1), sep, p);
        let pieces = split_on(s, sep);
        let r = split_on(s.skip(1), sep);
        lemma_split_len(s.skip(1), sep);
        assert forall|k: int, j: int|
            0 <= k < pieces.len() && 0 <= j < pieces[k].len() implies p(pieces[k][j]) by {
            if k == 0 {
                if j == 0 {
                    assert(pieces[0][0] == s[0]);
                } else {
                    assert(pieces[0][j] == r[0][j - 1]);
                }
            } else {
                assert(pieces[k] == r[k]);
            }
        }
    }
}

/// The first piece of a split is a prefix of the input, and no piece
/// contains an occurrence of the separator.
pub proof fn lemma_split_pieces_clean(s: Seq<char>, sep: Seq<char>)
    requires
        sep.len() >= 1,
    ensures
        split_on(s, sep)[0].is_prefix_of(s),
        forall|k: int, i: int|
            0 <= k < split_on(s, sep).len() ==> !(#[trigger] occurs_at(split_on(s, sep)[k], sep, i)),
    decreases s.len(),
{
    let n = sep.len() as int;
    let pieces = split_on(s, sep);
    if s.len() < sep.len() {
        assert forall|k: int, i: int| 0 <= k < pieces.len() implies !(#[trigger] occurs_at(
            pieces[k],
            sep,
            i,
        )) by {
            assert(pieces[k] == s);
        }
    } else if s.subrange(0, n) == sep {
        lemma_split_pieces_clean(s.skip(n), sep);
        let rest = split_on(s.skip(n), sep);
        assert(pieces[0] =~= Seq::<char>::empty());
        assert forall|k: int, i: int| 0 <= k < pieces.len() implies !(#[trigger] occurs_at(
            pieces[k],
            sep,
            i,
        )) by {
            if k >= 1 {
                assert(pieces[k] == rest[k - 1]);
            }
        }
    } else {
        lemma_split_pieces_clean(s.skip(1), sep);
        let r = split_on(s.skip(1), sep);
        lemma_split_len(s.skip(1), sep);
        assert(r[0].is_prefix_of(s.skip(1)));
        assert(pieces[0] =~= seq![s[0]] + r[0]);
        assert(pieces[0].is_prefix_of(s)) by {
            assert(pieces[0] =~= s.take(pieces[0].len() as int));
        }
        assert forall|k: int, i: int| 0 <= k < pieces.len() implies !(#[trigger] occurs_at(
            pieces[k],
            sep,
            i,
        )) by {
            if k == 0 {
                if occurs_at(pieces[0], sep, i) {
                    if i == 0 {
                        assert(pieces[0].subrange(0, n) =~= s.subrange(0, n));
                        assert(false);
                    } else {
                        assert(pieces[0].subrange(i, i + n) =~= r[0].subrange(i - 1, i - 1 + n));
                        assert(occurs_at(r[0], sep, i - 1));
                        assert(false);
                    }
                }
            } else {
                assert(pieces[k] == r[k]);
            }
        }
    }
}

/// A piece that splitting on `sep` can give back: it is empty, or it holds
/// no occurrence of `sep` and does not end in a space.
pub open spec fn piece_ok(p: Seq<char>, sep: Seq<char>) -> bool {
    p.len() == 0 || (p[p.len() - 1] != ' ' && forall|i: int| !occurs_at(p, sep, i))
}

/// A separator made of spaces only.
pub open spec fn all_space_sep(sep: Seq<char>) -> bool {
    forall|j: int| 0 <= j < sep.len() ==> sep[j] == ' '
}

/// Splitting a join on an all-space separator gives the pieces back, as long
/// as no piece ends in a space or contains the separator.
pub proof fn lemma_split_of_join(pieces: Seq<Seq<char>>, sep: Seq<char>)
    requires
        sep.len() >= 1,
        all_space_sep(sep),
        pieces.len() >= 1,
        forall|k: int| 0 <= k < pieces.len() ==> piece_ok(#[trigger] pieces[k], sep),
    ensures
        split_on(join_with(pieces, sep), sep) == pieces,
    decreases pieces.len(),
{
    let n = sep.len() as int;
    if pieces.len() == 1 {
        let p = pieces[0];
        assert(join_with(pieces, sep) == p);
        assert(piece_ok(p, sep));
        assert forall|i: int| !occurs_at(p, sep, i) by {
            if p.len() == 0 {
                assert(!(0 <= i && i + n <= 0));
            }
        }
        lemma_split_no_occurrence(p, sep);
        assert(split_on(p, sep) =~~= pieces);
    } else {
        let p = pieces[0];
        let rest = pieces.skip(1);
        let jr = join_with(rest, sep);
        let j = join_with(pieces, sep);
        assert(j == p + sep + jr);
        let pl = p.len() as int;
        assert forall|i: int| 0 <= i < pl implies !occurs_at(j, sep, i) by {
            if occurs_at(j, sep, i) {
                if i + n <= pl {
                    assert(p.subrange(i, i + n) =~= j.subrange(i, i + n));
                    assert(occurs_at(p, sep, i));
                } else {
                    assert(j[pl - 1] == p[pl - 1]);
                    assert(j[pl - 1] == j.subrange(i, i + n)[pl - 1 - i]);
                    assert(j[pl - 1] == ' ');
                }
            }
        }
        assert(occurs_at(j, sep, pl)) by {
            assert(j.subrange(pl, pl + n) =~= sep);
        }
        lemma_split_at_first(j, sep, pl);
        assert(j.take(pl) =~= p);
        assert(j.skip(pl + n) =~= jr);
        assert forall|k: int| 0 <= k < rest.len() implies piece_ok(#[trigger] rest[k], sep) by {
            assert(rest[k] == pieces[k + 1]);
        }
        lemma_split_of_join(rest, sep);
        assert(split_on(j, sep) =~~= pieces);
    }
}

/// Every character of the window `[i, i + n)` of `s` is a space.
pub open spec fn window_all_spaces(s: Seq<char>, i: int, n: int) -> bool {
    forall|j: int| i <= j < i + n ==> s[j] == ' '
}

/// `s` contains no run of `n` consecutive spaces.
pub open spec fn space_runs_below(s: Seq<char>, n: int) -> bool {
    forall|i: int| 0 <= i && i + n <= s.len() ==> !(#[trigger] window_all_spaces(s, i, n))
}

/// A sequence without `n` consecutive spaces contains no occurrence of an
/// all-space separator of length `n` or more.
pub proof fn lemma_no_run_no_occurrence(s: Seq<char>, sep: Seq<char>, n: int)
    requires
        1 <= n <= sep.len(),
        all_space_sep(sep),
        space_runs_below(s, n),
    ensures
        forall|i: int| !occurs_at(s, sep, i),
{
    assert forall|i: int| !occurs_at(s, sep, i) by {
        if occurs_at(s, sep, i) {
            assert(window_all_spaces(s, i, n)) by {
                assert forall|j: int| i <= j < i + n implies s[j] == ' ' by {
                    assert(s[j] == s.subrange(i, i + sep.len())[j - i]);
                }
            }
        }
    }
}

/// Joining pieces that start and end with a non-space and contain no run of
/// `n` spaces, on an all-space separator of length at least `n`, yields a
/// sequence that starts and ends with a non-space and contains no run wider
/// than the separator.
pub proof fn lemma_join_keeps_runs_narrow(pieces: Seq<Seq<char>>, sep: Seq<char>, n: int)
    requires
        1 <= n <= sep.len(),
        all_space_sep(sep),
        pieces.len() >= 1,
        forall|k: int| 0 <= k < pieces.len() ==> (#[trigger] pieces[k]).len() >= 1,
        forall|k: int| 0 <= k < pieces.len() ==> (#[trigger] pieces[k])[0] != ' ',
        forall|k: int|
            0 <= k < pieces.len() ==> (#[trigger] pieces[k])[pieces[k].len() - 1] != ' ',
        forall|k: int| 0 <= k < pieces.len() ==> space_runs_below(#[trigger] pieces[k], n),
    ensures
        join_with(pieces, sep).len() >= 1,
        join_with(pieces, sep)[0] != ' ',
        join_with(pieces, sep)[join_with(pieces, sep).len() - 1] != ' ',
        space_runs_below(join_with(pieces, sep), sep.len() as int + 1),
    decreases pieces.len(),
{
    let m = sep.len() as int;
    let j = join_with(pieces, sep);
    if pieces.len() == 1 {
        let p = pieces[0];
        assert(j == p);
        assert forall|i: int| 0 <= i && i + (m + 1) <= j.len() implies !(#[trigger] window_all_spaces(
            j,
            i,
            m + 1,
        )) by {
            if window_all_spaces(j, i, m + 1) {
                assert(window_all_spaces(p, i, n));
            }
        }
    } else {
        let p = pieces[0];
        let rest = pieces.skip(1);
        let jr = join_with(rest, sep);
        assert(j == p + sep + jr);
        let pl = p.len() as int;
        assert forall|k: int| 0 <= k < rest.len() implies (#[trigger] rest[k]).len() >= 1
            && rest[k][0] != ' ' && rest[k][rest[k].len() - 1] != ' ' && space_runs_below(
            rest[k],
            n,
        ) by {
            assert(rest[k] == pieces[k + 1]);
        }
        lemma_join_keeps_runs_narrow(rest, sep, n);
        assert(j[0] == p[0]);
        assert(j[j.len() - 1] == jr[jr.len() - 1]);
        assert forall|i: int| 0 <= i && i + (m + 1) <= j.len() implies !(#[trigger] window_all_spaces(
            j,
            i,
            m + 1,
        )) by {
            if window_all_spaces(j, i, m + 1) {
                if i + (m + 1) <= pl {
                    assert(window_all_spaces(p, i, n)) by {
                        assert forall|t: int| i <= t < i + n implies p[t] == ' ' by {
                            assert(p[t] == j[t]);
                        }
                    }
                } else if i < pl {
                    assert(j[pl - 1] == p[pl - 1]);
                    assert(j[pl - 1] == ' ');
                } else if i < pl + m {
                    assert(j[pl + m] == jr[0]);
                    assert(j[pl + m] == ' ');
                } else {
                    assert(window_all_spaces(jr, i - pl - m, m + 1)) by {
                        assert forall|t: int| i - pl - m <= t < i - pl - m + (m + 1) implies jr[t]
                            == ' ' by {
                            assert(jr[t] == j[t + pl + m]);
                        }
                    }
                }
            }
        }
    }
}

/// Splitting on a single character yields only non-empty pieces when the
/// input has no two adjacent separator characters and does not end in one;
/// the first piece is non-empty when the input does not start with one.
pub proof fn lemma_split_nonempty_pieces(s: Seq<char>, c: char)
    requires
        forall|i: int| 0 <= i && i + 1 < s.len() ==> !((#[trigger] s[i]) == c && s[i + 1] == c),
        s.len() >= 1 ==> s[s.len() - 1] != c,
    ensures
        forall|k: int|
            1 <= k < split_on(s, seq![c]).len() ==> (#[trigger] split_on(s, seq![c])[k]).len() >= 1,
        (s.len() >= 1 && s[0] != c) ==> split_on(s, seq![c])[0].len() >= 1,
    decreases s.len(),
{
    let sep = seq![c];
    let pieces = split_on(s, sep);
    if s.len() == 0 {
    } else if s.subrange(0, 1) == sep {
        assert(s[0] == c) by {
            assert(s.subrange(0, 1)[0] == s[0]);
        }
        assert(s.len() >= 2);
        assert(s.skip(1)[0] != c);
        assert(s.skip(1)[s.skip(1).len() - 1] != c);
        lemma_split_nonempty_pieces(s.skip(1), c);
        let rest = split_on(s.skip(1), sep);
        assert forall|k: int| 1 <= k < pieces.len() implies (#[trigger] pieces[k]).len() >= 1 by {
            assert(pieces[k] == rest[k - 1]);
            if k == 1 {
                assert(rest[0].len() >= 1);
            }
        }
    } else {
        assert(s[0] != c) by {
            if s[0] == c {
                assert(s.subrange(0, 1) =~= sep);
            }
        }
        let r = split_on(s.skip(1), sep);
        lemma_split_len(s.skip(1), sep);
        if s.len() >= 2 {
            assert(s.skip(1)[s.skip(1).len() - 1] != c);
        }
        lemma_split_nonempty_pieces(s.skip(1), c);
        assert(pieces[0].len() >= 1);
        assert forall|k: int| 1 <= k < pieces.len() implies (#[trigger] pieces[k]).len() >= 1 by {
            assert(pieces[k] == r[k]);
        }
    }
}

/// The views of a sequence of owned strings.
pub open spec fn views_of(v: Seq<String>) -> Seq<Seq<char>> {
    v.map_values(|x: String| x@)
}

/// Whether `sep` occurs in `s` at position `i`, by character comparison.
fn matches_at(s: &str, sep: &str, i: usize) -> (b: bool)
    requires
        i + sep@.len() <= s@.len(),
    ensures
        b == occurs_at(s@, sep@, i as int),
{
    let n = s.unicode_len();
    let m = sep.unicode_len();
    let mut j: usize = 0;
    while j < m
        invariant
            n == s@.len(),
            m == sep@.len(),
            i + m <= n,
            0 <= j <= m,
            forall|t: int| 0 <= t < j ==> s@[i + t] == sep@[t],
        decreases m - j,
    {
        if s.get_char(i + j) != sep.get_char(j) {
            proof {
                assert(s@.subrange(i as int, i + m) != sep@) by {
                    assert(s@.subrange(i as int, i + m)[j as int] == s@[i + j]);
                }
            }
            return false;
        }
        j += 1;
    }
    proof {
        assert(s@.subrange(i as int, i + m) =~= sep@);
    }
    true
}

/// Split `s` on every occurrence of `sep`, leftmost first: the executable
/// counterpart of `split_on`.
pub fn split_str(s: &str, sep: &str) -> (r: Vec<String>)
    requires
        sep@.len() >= 1,
    ensures
        views_of(r@) == split_on(s@, sep@),
{
    let n = s.unicode_len();
    let m = sep.unicode_len();
    let mut r: Vec<String> = Vec::new();
    let mut start: usize = 0;
    let mut i: usize = 0;
    proof {
        assert(s@.skip(0) =~= s@);
        assert(views_of(r@) + split_on(s@, sep@) =~~= split_on(s@, sep@));
    }
    while m <= n - i
        invariant
            m == sep@.len(),
            n == s@.len(),
            m >= 1,
            start <= i <= n,
            split_on(s@, sep@) == views_of(r@) + split_on(s@.skip(start as int), sep@),
            forall|t: int| start <= t < i ==> !occurs_at(s@, sep@, t),
        decreases n - i,
    {
        if matches_at(s, sep, i) {
            let piece = String::from_str(s.substring_char(start, i));
            proof {
                    assert(occurs_at(s@.skip(start as int), sep@, i - start)) by {
                        lemma_occurs_in_skip(s@, sep@, start as int, i - start);
                    }
                    assert forall|t: int| 0 <= t < i - start implies !occurs_at(
                        s@.skip(start as int),
                        sep@,
                        t,
                    ) by {
                        lemma_occurs_in_skip(s@, sep@, start as int, t);
                    }
                    lemma_split_at_first(s@.skip(start as int), sep@, i - start);
                    assert(s@.skip(start as int).take(i - start) =~= s@.subrange(
                        start as int,
                        i as int,
                    ));
                    assert(s@.skip(start as int).skip(i - start + m) =~= s@.skip(i + m));
                    assert(views_of(r@.push(piece)) =~~= views_of(r@).push(piece@));
                    assert(views_of(r@.push(piece)) + split_on(s@.skip(i + m), sep@) =~~= views_of(
                        r@,
                    ) + split_on(s@.skip(start as int), sep@));
                }
                r.push(piece);
                start = i + m;
                i = i + m;
        } else {
            i = i + 1;
        }
    }
    let last = String::from_str(s.substring_char(start, n));
    proof {
        assert forall|t: int| !occurs_at(s@.skip(start as int), sep@, t) by {
            lemma_occurs_in_skip(s@, sep@, start as int, t);
            if 0 <= t && occurs_at(s@, sep@, t + start) {
                assert(t + start + m <= n);
            }
        }
        lemma_split_no_occurrence(s@.skip(start as int), sep@);
        assert(s@.skip(start as int) =~= s@.subrange(start as int, n as int));
        assert(views_of(r@.push(last)) =~~= views_of(r@).push(last@));
        assert(views_of(r@.push(last)) =~~= views_of(r@) + seq![s@.skip(start as int)]);
    }
    r.push(last);
    r
}

/// Join the pieces with the separator: the executable counterpart of
/// `join_with`.
pub fn join_strs(pieces: &Vec<String>, sep: &str) -> (r: String)
    ensures
        r@ == join_with(views_of(pieces@), sep@),
{
    let mut r = String::new();
    let mut i: usize = 0;
    while i < pieces.len()
        invariant
            0 <= i <= pieces@.len(),
            r@ == join_with(views_of(pieces@).take(i as int), sep@),
        decreases pieces@.len() - i,
    {
        if i > 0 {
            r.append(sep);
        }
        r.append(pieces[i].as_str());
        proof {
            lemma_join_push(views_of(pieces@).take(i as int), pieces@[i as int]@, sep@);
            assert(views_of(pieces@).take(i + 1) =~~= views_of(pieces@).take(i as int).push(
                pieces@[i as int]@,
            ));
        }
        i += 1;
    }
    proof {
        assert(views_of(pieces@).take(pieces@.len() as int) =~~= views_of(pieces@));
    }
    r
}

} // verus!
