//! Splitting a line into space-separated tokens, and joining tokens back.
//!
//! The protocol splits on single ASCII spaces and does not collapse runs:
//! two adjacent spaces yield an empty token.  Splitting always yields at
//! least one token, and joining the tokens with single spaces restores the
//! input exactly.

use vstd::prelude::*;

verus! {

/// The tokens of `s`, split on every single space.  Always at least one
/// token; empty tokens are kept.
pub open spec fn split_spaces(s: Seq<char>) -> Seq<Seq<char>>
    decreases s.len(),
{
    if s.len() == 0 {
        seq![Seq::<char>::empty()]
    } else if s[0] == ' ' {
        seq![Seq::<char>::empty()] + split_spaces(s.drop_first())
    } else {
        let r = split_spaces(s.drop_first());
        seq![seq![s[0]] + r[0]] + r.drop_first()
    }
}

/// The tokens rejoined on single spaces.
pub open spec fn join_spaces(ts: Seq<Seq<char>>) -> Seq<char>
    decreases ts.len(),
{
    if ts.len() == 0 {
        Seq::<char>::empty()
    } else if ts.len() == 1 {
        ts[0]
    } else {
        ts[0] + seq![' '] + join_spaces(ts.drop_first())
    }
}

pub proof fn lemma_split_len(s: Seq<char>)
    ensures
        split_spaces(s).len() >= 1,
    decreases s.len(),
{
    if s.len() == 0 {
    } else if s[0] == ' ' {
        lemma_split_len(s.drop_first());
    } else {
        lemma_split_len(s.drop_first());
    }
}

/// A sequence without spaces splits into itself as the only token.
pub proof fn lemma_split_no_space(s: Seq<char>)
    requires
        forall|i: int| 0 <= i < s.len() ==> s[i] != ' ',
    ensures
        split_spaces(s) =~~= seq![s],
    decreases s.len(),
{
    if s.len() == 0 {
        assert(split_spaces(s) =~~= seq![s]);
    } else {
        lemma_split_no_space(s.drop_first());
        lemma_split_len(s.drop_first());
        assert(seq![s[0]] + s.drop_first() =~= s);
    }
}

/// Splitting distributes over a space: the tokens of `a + ' ' + b` are the
/// tokens of `a` followed by the tokens of `b`.
pub proof fn lemma_split_append(a: Seq<char>, b: Seq<char>)
    ensures
        split_spaces(a + seq![' '] + b) =~~= split_spaces(a) + split_spaces(b),
    decreases a.len(),
{
    let s = a + seq![' '] + b;
    if a.len() == 0 {
        assert(s[0] == ' ');
        assert(s.drop_first() =~= b);
        assert(split_spaces(a) =~~= seq![Seq::<char>::empty()]);
    } else {
        lemma_split_append(a.drop_first(), b);
        lemma_split_len(a.drop_first());
        lemma_split_len(b);
        assert(s.drop_first() =~= a.drop_first() + seq![' '] + b);
        if a[0] == ' ' {
            assert(split_spaces(s) =~~= seq![Seq::<char>::empty()] + split_spaces(
                s.drop_first(),
            ));
        } else {
            let r = split_spaces(s.drop_first());
            let ra = split_spaces(a.drop_first());
            assert(r =~~= ra + split_spaces(b));
            assert(r[0] == ra[0]);
            assert(r.drop_first() =~~= ra.drop_first() + split_spaces(b));
        }
    }
}

/// Joining the tokens of `s` restores `s` exactly.
pub proof fn lemma_join_split(s: Seq<char>)
    ensures
        join_spaces(split_spaces(s)) =~= s,
    decreases s.len(),
{
    lemma_split_len(s);
    if s.len() == 0 {
    } else if s[0] == ' ' {
        lemma_join_split(s.drop_first());
        lemma_split_len(s.drop_first());
        let r = split_spaces(s.drop_first());
        assert(split_spaces(s).drop_first() =~~= r);
        assert(join_spaces(split_spaces(s)) =~= Seq::<char>::empty() + seq![' ']
            + join_spaces(r));
        assert(s =~= seq![' '] + s.drop_first());
    } else {
        lemma_join_split(s.drop_first());
        let r = split_spaces(s.drop_first());
        lemma_split_len(s.drop_first());
        let t = split_spaces(s);
        assert(t[0] == seq![s[0]] + r[0]);
        if r.len() == 1 {
            assert(t.len() == 1);
            assert(join_spaces(t) == t[0]);
            assert(join_spaces(r) == r[0]);
            assert(join_spaces(t) =~= s);
        } else {
            assert(t.drop_first() =~~= r.drop_first());
            assert(join_spaces(t) =~= t[0] + seq![' '] + join_spaces(r.drop_first()));
            assert(join_spaces(r) =~= r[0] + seq![' '] + join_spaces(r.drop_first()));
            assert(join_spaces(r) =~= s.drop_first());
            assert(join_spaces(t) =~= seq![s[0]] + (r[0] + seq![' '] + join_spaces(
                r.drop_first(),
            )));
            assert(join_spaces(t) =~= seq![s[0]] + s.drop_first());
            assert(seq![s[0]] + s.drop_first() =~= s);
        }
    }
}

/// Appending one more token appends a space and that token to the joined
/// line.
pub proof fn lemma_join_push(ts: Seq<Seq<char>>, t: Seq<char>)
    requires
        ts.len() >= 1,
    ensures
        join_spaces(ts.push(t)) =~= join_spaces(ts) + seq![' '] + t,
    decreases ts.len(),
{
    if ts.len() == 1 {
        assert(ts.push(t).drop_first() =~~= seq![t]);
        assert(join_spaces(seq![t]) == t);
        assert(ts.push(t).len() == 2);
        assert(ts.push(t)[0] == ts[0]);
        assert(join_spaces(ts.push(t)) == ts.push(t)[0] + seq![' '] + join_spaces(
            ts.push(t).drop_first(),
        ));
        assert(join_spaces(ts.push(t)) =~= ts[0] + seq![' '] + t);
    } else {
        lemma_join_push(ts.drop_first(), t);
        assert(ts.push(t).drop_first() =~~= ts.drop_first().push(t));
        assert(join_spaces(ts.push(t)) =~= ts[0] + seq![' '] + join_spaces(
            ts.drop_first().push(t),
        ));
    }
}

/// The tokens of the suffix `s.skip(i)`, with `acc` prefixed onto the first
/// of them: the splitting loop's intermediate picture.
pub open spec fn split_with_acc(acc: Seq<char>, s: Seq<char>) -> Seq<Seq<char>> {
    let r = split_spaces(s);
    seq![acc + r[0]] + r.drop_first()
}

proof fn lemma_split_acc_space(acc: Seq<char>, s: Seq<char>)
    requires
        s.len() >= 1,
        s[0] == ' ',
    ensures
        split_with_acc(acc, s) =~~= seq![acc] + split_with_acc(
            Seq::<char>::empty(),
            s.drop_first(),
        ),
{
    lemma_split_len(s.drop_first());
    let r = split_spaces(s.drop_first());
    assert(split_spaces(s) == seq![Seq::<char>::empty()] + r);
    assert((seq![Seq::<char>::empty()] + r)[0] =~= Seq::<char>::empty());
    assert((seq![Seq::<char>::empty()] + r).drop_first() =~~= r);
    assert(acc + Seq::<char>::empty() =~= acc);
    assert(Seq::<char>::empty() + r[0] =~= r[0]);
}

proof fn lemma_split_acc_char(acc: Seq<char>, s: Seq<char>)
    requires
        s.len() >= 1,
        s[0] != ' ',
    ensures
        split_with_acc(acc, s) =~~= split_with_acc(acc.push(s[0]), s.drop_first()),
{
    lemma_split_len(s.drop_first());
    let r = split_spaces(s.drop_first());
    assert(split_spaces(s) == seq![seq![s[0]] + r[0]] + r.drop_first());
    assert((seq![seq![s[0]] + r[0]] + r.drop_first())[0] == seq![s[0]] + r[0]);
    assert((seq![seq![s[0]] + r[0]] + r.drop_first()).drop_first() =~~= r.drop_first());
    assert(acc + (seq![s[0]] + r[0]) =~= acc.push(s[0]) + r[0]);
}

/// Compares two string slices character by character.
pub fn str_eq(a: &str, b: &str) -> (r: bool)
    ensures
        r == (a@ == b@),
{
    let n = a.unicode_len();
    if n != b.unicode_len() {
        return false;
    }
    let mut i: usize = 0;
    while i < n
        invariant
            0 <= i <= n,
            n == a@.len(),
            n == b@.len(),
            forall|k: int| 0 <= k < i ==> a@[k] == b@[k],
        decreases n - i,
    {
        if a.get_char(i) != b.get_char(i) {
            return false;
        }
        i += 1;
    }
    proof {
        assert(a@ =~= b@);
    }
    true
}

/// Splits `s` on every single space, keeping empty tokens.
pub fn split_spaces_exec(s: &str) -> (r: Vec<String>)
    ensures
        r.deep_view() == split_spaces(s@),
        r.len() >= 1,
{
    let n = s.unicode_len();
    let mut tokens: Vec<String> = Vec::new();
    let mut start: usize = 0;
    let mut i: usize = 0;
    proof {
        lemma_split_len(s@);
        assert(s@.subrange(0, 0) =~= Seq::<char>::empty());
        assert(s@.skip(0) =~= s@);
        assert(tokens.deep_view() =~~= Seq::<Seq<char>>::empty());
        assert(Seq::<char>::empty() + split_spaces(s@)[0] =~= split_spaces(s@)[0]);
        assert(split_with_acc(Seq::<char>::empty(), s@) =~~= split_spaces(s@));
    }
    while i < n
        invariant
            0 <= start <= i <= n,
            n == s@.len(),
            split_spaces(s@) =~~= tokens.deep_view() + split_with_acc(
                s@.subrange(start as int, i as int),
                s@.skip(i as int),
            ),
        decreases n - i,
    {
        let ghost pre = tokens.deep_view();
        let ghost cur = s@.subrange(start as int, i as int);
        let ghost suffix = s@.skip(i as int);
        proof {
            assert(suffix.len() >= 1);
            assert(suffix[0] == s@[i as int]);
            assert(suffix.drop_first() =~= s@.skip(i as int + 1));
        }
        if s.get_char(i) == ' ' {
            let tok = s.substring_char(start, i).to_owned();
            tokens.push(tok);
            start = i + 1;
            proof {
                lemma_split_acc_space(cur, suffix);
                assert(tokens.deep_view() =~~= pre + seq![cur]);
                assert(s@.subrange(start as int, i as int + 1) =~= Seq::<char>::empty());
            }
        } else {
            proof {
                lemma_split_acc_char(cur, suffix);
                assert(s@.subrange(start as int, i as int + 1) =~= cur.push(s@[i as int]));
            }
        }
        i += 1;
    }
    let tok = s.substring_char(start, n).to_owned();
    tokens.push(tok);
    proof {
        let cur = s@.subrange(start as int, n as int);
        assert(s@.skip(n as int) =~= Seq::<char>::empty());
        assert(split_with_acc(cur, Seq::<char>::empty()) =~~= seq![cur]);
        assert(tokens.deep_view() =~~= split_spaces(s@));
    }
    tokens
}

/// Joins `tokens[start..]` on single spaces.
pub fn join_from(tokens: &Vec<String>, start: usize) -> (r: String)
    requires
        start < tokens.len(),
    ensures
        r@ == join_spaces(tokens.deep_view().skip(start as int)),
{
    let ghost all = tokens.deep_view();
    let mut s = tokens[start].clone();
    let mut i: usize = start + 1;
    proof {
        reveal_strlit(" ");
        assert(all.subrange(start as int, start as int + 1) =~= seq![all[start as int]]);
        assert(s@ == join_spaces(all.subrange(start as int, start as int + 1)));
    }
    while i < tokens.len()
        invariant
            start < i <= tokens.len(),
            all == tokens.deep_view(),
            " "@ =~= seq![' '],
            s@ == join_spaces(all.subrange(start as int, i as int)),
        decreases tokens.len() - i,
    {
        s.append(" ");
        s.append(tokens[i].as_str());
        proof {
            let before = all.subrange(start as int, i as int);
            lemma_join_push(before, all[i as int]);
            assert(before.push(all[i as int]) =~~= all.subrange(start as int, i as int + 1));
        }
        i += 1;
    }
    proof {
        assert(all.subrange(start as int, all.len() as int) =~~= all.skip(start as int));
    }
    s
}

} // verus!
