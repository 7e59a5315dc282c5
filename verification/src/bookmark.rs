//! The fields of a bookmark URL query (`x=<world_x>&y=<world_y>&z=<zoom>`):
//! the query is cut at each `&`, and each field at its first `=`.  Reading
//! the numbers is left to the caller.

use vstd::prelude::*;

verus! {

/// The pieces of `s` between the separators `sep`, as `str::split` yields
/// them: one more piece than there are separators, empty pieces included.
pub open spec fn split_pieces(s: Seq<char>, sep: char) -> Seq<Seq<char>>
    decreases s.len(),
{
    if s.len() == 0 {
        seq![Seq::empty()]
    } else {
        let p = split_pieces(s.drop_last(), sep);
        if s.last() == sep {
            p.push(Seq::empty())
        } else {
            p.update(p.len() - 1, p.last().push(s.last()))
        }
    }
}

/// A field `key=value`, cut at its first `=`; a field without `=` has no value.
pub open spec fn key_value(field: Seq<char>) -> Option<(Seq<char>, Seq<char>)> {
    match field.index_of_first('=') {
        Some(i) => Some((field.take(i), field.skip(i + 1))),
        None => None,
    }
}

/// The key/value pairs of the fields, in order; fields without `=` are left out.
pub open spec fn key_values(fields: Seq<Seq<char>>) -> Seq<(Seq<char>, Seq<char>)>
    decreases fields.len(),
{
    if fields.len() == 0 {
        Seq::empty()
    } else {
        key_values(fields.drop_last()) + match key_value(fields.last()) {
            Some(kv) => seq![kv],
            None => Seq::empty(),
        }
    }
}

/// The key/value pairs of a query string.
pub open spec fn query_fields(query: Seq<char>) -> Seq<(Seq<char>, Seq<char>)> {
    key_values(split_pieces(query, '&'))
}

/// Pairs of strings as plain values.
pub open spec fn pairs_view(v: Seq<(String, String)>) -> Seq<(Seq<char>, Seq<char>)> {
    v.map_values(|p: (String, String)| (p.0@, p.1@))
}

proof fn lemma_split_pieces_nonempty(s: Seq<char>, sep: char)
    ensures
        split_pieces(s, sep).len() >= 1,
    decreases s.len(),
{
    if s.len() > 0 {
        lemma_split_pieces_nonempty(s.drop_last(), sep);
    }
}

/// The first `=` of `q[start..end]`, as an index into `q`.
spec fn first_eq_in(q: Seq<char>, start: int, end: int, eq: Option<usize>) -> bool {
    match eq {
        Some(e) => {
            &&& start <= e < end
            &&& q[e as int] == '='
            &&& forall|j: int| start <= j < e ==> q[j] != '='
        },
        None => forall|j: int| start <= j < end ==> q[j] != '=',
    }
}

proof fn lemma_key_value_at(q: Seq<char>, start: int, end: int, eq: Option<usize>)
    requires
        0 <= start <= end <= q.len(),
        first_eq_in(q, start, end, eq),
    ensures
        key_value(q.subrange(start, end)) == match eq {
            Some(e) => Some((q.subrange(start, e as int), q.subrange(e + 1, end))),
            None => None::<(Seq<char>, Seq<char>)>,
        },
{
    let f = q.subrange(start, end);
    f.index_of_first_ensures('=');
    match eq {
        Some(e) => {
            assert(f[e - start] == '=');
            assert(f.contains('='));
            let k = f.index_of_first('=')->0;
            if k < e - start {
                assert(q[start + k] == '=');
            }
            assert(k == e - start);
            assert(f.take(k) =~= q.subrange(start, e as int));
            assert(f.skip(k + 1) =~= q.subrange(e + 1, end));
        },
        None => {
            if f.contains('=') {
                let j = choose|j: int| 0 <= j < f.len() && f[j] == '=';
                assert(q[start + j] == '=');
            }
        },
    }
}

/// The key/value pairs of a URL query, in order: the query is cut at each
/// `&` and each field at its first `=`; a field without `=` is skipped.
pub fn query_pairs(query: &str) -> (r: Vec<(String, String)>)
    ensures
        pairs_view(r@) == query_fields(query@),
{
    let n = query.unicode_len();
    let mut out: Vec<(String, String)> = Vec::new();
    let mut start: usize = 0;
    let mut eq: Option<usize> = None;
    let mut i: usize = 0;
    proof {
        assert(query@.take(0) =~= Seq::<char>::empty());
        assert(query@.subrange(0, 0) =~= Seq::<char>::empty());
        assert(pairs_view(out@) =~= Seq::empty());
    }
    while i < n
        invariant
            n == query@.len(),
            start <= i <= n,
            split_pieces(query@.take(i as int), '&').len() >= 1,
            split_pieces(query@.take(i as int), '&').last() == query@.subrange(start as int, i as int),
            pairs_view(out@) == key_values(split_pieces(query@.take(i as int), '&').drop_last()),
            first_eq_in(query@, start as int, i as int, eq),
        decreases n - i,
    {
        let c = query.get_char(i);
        let ghost p = split_pieces(query@.take(i as int), '&');
        proof {
            assert(query@.take(i + 1).drop_last() =~= query@.take(i as int));
            assert(query@.take(i + 1).last() == c);
        }
        if c == '&' {
            proof {
                lemma_key_value_at(query@, start as int, i as int, eq);
                assert(p.push(Seq::empty()).drop_last() =~= p);
                assert(p.drop_last().push(p.last()) =~= p);
                assert(key_values(p) == key_values(p.drop_last()) + match key_value(p.last()) {
                    Some(kv) => seq![kv],
                    None => Seq::empty(),
                });
            }
            let ghost before = out@;
            match eq {
                Some(e) => {
                    let key = query.substring_char(start, e).to_owned();
                    let value = query.substring_char(e + 1, i).to_owned();
                    out.push((key, value));
                    assert(pairs_view(out@) =~= pairs_view(before).push((key@, value@)));
                },
                None => {},
            }
            assert(pairs_view(out@) =~= key_values(p));
            start = i + 1;
            eq = None;
            assert(query@.subrange(start as int, i + 1) =~= Seq::<char>::empty());
        } else {
            if eq.is_none() && c == '=' {
                eq = Some(i);
            }
            proof {
                let p2 = p.update(p.len() - 1, p.last().push(c));
                assert(p2.drop_last() =~= p.drop_last());
                assert(query@.subrange(start as int, i + 1) =~= query@.subrange(
                    start as int,
                    i as int,
                ).push(c));
            }
        }
        i = i + 1;
    }
    let ghost p = split_pieces(query@, '&');
    proof {
        assert(query@.take(n as int) =~= query@);
        lemma_key_value_at(query@, start as int, n as int, eq);
        assert(p.drop_last().push(p.last()) =~= p);
        assert(key_values(p) == key_values(p.drop_last()) + match key_value(p.last()) {
            Some(kv) => seq![kv],
            None => Seq::empty(),
        });
    }
    let ghost before = out@;
    match eq {
        Some(e) => {
            let key = query.substring_char(start, e).to_owned();
            let value = query.substring_char(e + 1, n).to_owned();
            out.push((key, value));
            assert(pairs_view(out@) =~= pairs_view(before).push((key@, value@)));
        },
        None => {},
    }
    assert(pairs_view(out@) =~= key_values(p));
    out
}

} // verus!
