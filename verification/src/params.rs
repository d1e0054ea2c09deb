//! The parameter set of a request: unique keys held in strictly ascending
//! lexicographic order, and its canonical query string.
//!
//! The order is an invariant of the signing protocol, not an optimization:
//! the canonical query string, and with it the signature, depends only on
//! the key-to-value mapping, which `lemma_canonical_from_map` states.

use vstd::prelude::*;

use crate::encoding::encode_rfc3986;
use crate::encoding::encode_seq;
use crate::strutil::lemma_lex_connected;
use crate::strutil::lemma_lex_irrefl;
use crate::strutil::lemma_lex_trans;
use crate::strutil::lex_lt;
use crate::strutil::push_char;
use crate::strutil::str_eq;
use crate::strutil::str_lex_cmp;
use crate::strutil::str_starts_with;

verus! {

/// Keys appear in strictly ascending lexicographic order.
pub open spec fn sorted_keys(ps: Seq<(Seq<char>, Seq<char>)>) -> bool {
    forall|i: int|
        0 <= i && i + 1 < ps.len() ==> #[trigger] lex_lt(ps[i].0, ps[i + 1].0)
}

/// The sequence with `(k, v)` placed at its ordered position, replacing
/// the value if the key is already present.
pub open spec fn insert_sorted(
    ps: Seq<(Seq<char>, Seq<char>)>,
    k: Seq<char>,
    v: Seq<char>,
) -> Seq<(Seq<char>, Seq<char>)>
    decreases ps.len(),
{
    if ps.len() == 0 {
        seq![(k, v)]
    } else if lex_lt(ps[0].0, k) {
        seq![ps[0]] + insert_sorted(ps.drop_first(), k, v)
    } else if ps[0].0 == k {
        seq![(k, v)] + ps.drop_first()
    } else {
        seq![(k, v)] + ps
    }
}

/// The key-to-value mapping that a pair sequence denotes; earlier entries
/// win when a key repeats.
pub open spec fn map_of(ps: Seq<(Seq<char>, Seq<char>)>) -> Map<Seq<char>, Seq<char>>
    decreases ps.len(),
{
    if ps.len() == 0 {
        Map::empty()
    } else {
        map_of(ps.drop_first()).insert(ps[0].0, ps[0].1)
    }
}

/// Keys whose value enters the canonical query string as it stands:
/// exactly `timestamp`, or any key beginning with `file`.  Those values
/// are inserted pre-encoded and must not be encoded twice.
pub open spec fn raw_value_key(k: Seq<char>) -> bool {
    k == "timestamp"@ || "file"@.is_prefix_of(k)
}

/// One `key=value` pair of the canonical query string: the key always
/// encoded, the value unless the key calls for it raw.
pub open spec fn pair_encoding(k: Seq<char>, v: Seq<char>) -> Seq<char> {
    encode_seq(k) + seq!['='] + (if raw_value_key(k) {
        v
    } else {
        encode_seq(v)
    })
}

/// The canonical query string: the encoded pairs in order, joined by `&`
/// with no trailing separator.
pub open spec fn canonical_of(ps: Seq<(Seq<char>, Seq<char>)>) -> Seq<char>
    decreases ps.len(),
{
    if ps.len() == 0 {
        Seq::empty()
    } else if ps.len() == 1 {
        pair_encoding(ps[0].0, ps[0].1)
    } else {
        pair_encoding(ps[0].0, ps[0].1) + seq!['&'] + canonical_of(ps.drop_first())
    }
}

/// A set of request parameters, keyed by name, iterated in strictly
/// ascending key order.
pub struct ParamSet {
    pairs: Vec<(String, String)>,
}

impl View for ParamSet {
    type V = Seq<(Seq<char>, Seq<char>)>;

    closed spec fn view(&self) -> Seq<(Seq<char>, Seq<char>)> {
        self.pairs@.map_values(|p: (String, String)| (p.0@, p.1@))
    }
}

impl ParamSet {
    /// The ordering invariant.
    pub open spec fn wf(&self) -> bool {
        sorted_keys(self@)
    }

    /// An empty parameter set.
    pub fn new() -> (r: ParamSet)
        ensures
            r@ == Seq::<(Seq<char>, Seq<char>)>::empty(),
            r.wf(),
    {
        let r = ParamSet { pairs: Vec::new() };
        proof {
            assert(r@ =~= Seq::<(Seq<char>, Seq<char>)>::empty());
        }
        r
    }

    /// How many parameters the set holds.
    pub fn len(&self) -> (n: usize)
        ensures
            n == self@.len(),
    {
        self.pairs.len()
    }

    /// The pairs in their canonical order, for handing to a transport.
    pub fn entries(&self) -> (r: &Vec<(String, String)>)
        ensures
            r@.len() == self@.len(),
            forall|i: int|
                0 <= i < r@.len() ==> (#[trigger] r@[i]).0@ == self@[i].0 && r@[i].1@
                    == self@[i].1,
    {
        &self.pairs
    }

    /// Puts `key = value` into the set at its ordered position, replacing
    /// any earlier value under the same key.
    pub fn insert(&mut self, key: String, value: String)
        requires
            old(self).wf(),
        ensures
            final(self).wf(),
            final(self)@ == insert_sorted(old(self)@, key@, value@),
            map_of(final(self)@) == map_of(old(self)@).insert(key@, value@),
    {
        let ghost ps = self@;
        let n = self.pairs.len();
        let mut i: usize = 0;
        let mut key_present = false;
        loop
            invariant_except_break
                n == ps.len(),
                self@ == ps,
                i <= n,
                !key_present,
                forall|j: int| 0 <= j < i ==> lex_lt(#[trigger] ps[j].0, key@),
            ensures
                n == ps.len(),
                self@ == ps,
                i <= n,
                forall|j: int| 0 <= j < i ==> lex_lt(#[trigger] ps[j].0, key@),
                key_present ==> i < n && ps[i as int].0 == key@,
                !key_present ==> i == n || lex_lt(key@, ps[i as int].0),
            decreases n - i,
        {
            if i >= n {
                break ;
            }
            let c = str_lex_cmp(self.pairs[i].0.as_str(), key.as_str());
            if c == 0 {
                key_present = true;
                break ;
            }
            if c == 1 {
                break ;
            }
            i += 1;
        }
        proof {
            lemma_insert_sorted_split(ps, key@, value@, i as int);
            lemma_lex_irrefl(key@);
            if i < n && !key_present {
                // the key at the stop position is strictly above the new
                // key, so it is neither below it nor equal to it
                if ps[i as int].0 == key@ {
                    assert(lex_lt(key@, key@));
                }
                if lex_lt(ps[i as int].0, key@) {
                    lemma_lex_trans(key@, ps[i as int].0, key@);
                }
            }
        }
        if key_present {
            self.pairs.remove(i);
            self.pairs.insert(i, (key, value));
            proof {
                assert(self@ =~= ps.take(i as int) + seq![(key@, value@)] + ps.skip(i as int).drop_first());
                assert(insert_sorted(ps.skip(i as int), key@, value@) =~= seq![(key@, value@)]
                    + ps.skip(i as int).drop_first());
                assert(self@ =~= insert_sorted(ps, key@, value@));
            }
        } else {
            self.pairs.insert(i, (key, value));
            proof {
                assert(self@ =~= ps.take(i as int) + seq![(key@, value@)] + ps.skip(i as int));
                if i < n {
                    assert(insert_sorted(ps.skip(i as int), key@, value@) =~= seq![(key@, value@)]
                        + ps.skip(i as int));
                } else {
                    assert(ps.skip(i as int) =~= Seq::<(Seq<char>, Seq<char>)>::empty());
                    assert(insert_sorted(ps.skip(i as int), key@, value@) =~= seq![(key@, value@)]);
                }
                assert(self@ =~= insert_sorted(ps, key@, value@));
            }
        }
        proof {
            lemma_insert_sorted_sorted(ps, key@, value@);
            lemma_insert_sorted_map(ps, key@, value@);
        }
    }
}

/// Splitting `insert_sorted` at a point every key before which is below
/// `k`: the prefix stays, the insertion happens in the rest.
proof fn lemma_insert_sorted_split(ps: Seq<(Seq<char>, Seq<char>)>, k: Seq<char>, v: Seq<char>, i: int)
    requires
        0 <= i <= ps.len(),
        forall|j: int| 0 <= j < i ==> lex_lt(#[trigger] ps[j].0, k),
    ensures
        insert_sorted(ps, k, v) == ps.take(i) + insert_sorted(ps.skip(i), k, v),
    decreases i,
{
    if i == 0 {
        assert(ps.skip(0) =~= ps);
        assert(ps.take(0) + insert_sorted(ps, k, v) =~= insert_sorted(ps, k, v));
    } else {
        assert(lex_lt(ps[0].0, k));
        lemma_insert_sorted_split(ps.drop_first(), k, v, i - 1);
        assert(ps.drop_first().take(i - 1) =~= ps.take(i).drop_first());
        assert(ps.drop_first().skip(i - 1) =~= ps.skip(i));
        assert(seq![ps[0]] + (ps.take(i).drop_first() + insert_sorted(ps.skip(i), k, v)) =~= ps.take(
            i,
        ) + insert_sorted(ps.skip(i), k, v));
    }
}

/// Insertion keeps the keys strictly sorted.
proof fn lemma_insert_sorted_sorted(ps: Seq<(Seq<char>, Seq<char>)>, k: Seq<char>, v: Seq<char>)
    requires
        sorted_keys(ps),
    ensures
        sorted_keys(insert_sorted(ps, k, v)),
    decreases ps.len(),
{
    if ps.len() == 0 {
    } else if lex_lt(ps[0].0, k) {
        lemma_sorted_tail(ps);
        lemma_insert_sorted_sorted(ps.drop_first(), k, v);
        let rec = insert_sorted(ps.drop_first(), k, v);
        let r = seq![ps[0]] + rec;
        // the head of the result of the recursive insertion is either the
        // inserted key or the old second key; both are above ps[0].0
        assert(rec[0].0 == k || (ps.len() > 1 && rec[0].0 == ps[1].0));
        assert forall|j: int| 0 <= j && j + 1 < r.len() implies #[trigger] lex_lt(
            r[j].0,
            r[j + 1].0,
        ) by {
            if j == 0 {
                assert(r[0] == ps[0]);
                assert(r[1] == rec[0]);
            } else {
                assert(r[j] == rec[j - 1]);
                assert(r[j + 1] == rec[j]);
            }
        }
    } else if ps[0].0 == k {
        let r = seq![(k, v)] + ps.drop_first();
        assert forall|j: int| 0 <= j && j + 1 < r.len() implies #[trigger] lex_lt(
            r[j].0,
            r[j + 1].0,
        ) by {
            if j == 0 {
                assert(r[0] == (k, v));
                assert(r[1] == ps[1]);
                assert(lex_lt(ps[0].0, ps[1].0));
            } else {
                assert(r[j] == ps[j]);
                assert(r[j + 1] == ps[j + 1]);
            }
        }
    } else {
        lemma_lex_connected(ps[0].0, k);
        lemma_lex_irrefl(ps[0].0);
        let r = seq![(k, v)] + ps;
        assert(lex_lt(k, ps[0].0));
        assert forall|j: int| 0 <= j && j + 1 < r.len() implies #[trigger] lex_lt(
            r[j].0,
            r[j + 1].0,
        ) by {
            if j == 0 {
                assert(r[0] == (k, v));
                assert(r[1] == ps[0]);
            } else {
                let idx = j - 1;
                assert(lex_lt(ps[idx].0, ps[idx + 1].0));
                assert(r[j] == ps[j - 1]);
                assert(r[j + 1] == ps[j]);
            }
        }
    }
}

/// Insertion denotes insertion in the key-to-value mapping.
proof fn lemma_insert_sorted_map(ps: Seq<(Seq<char>, Seq<char>)>, k: Seq<char>, v: Seq<char>)
    requires
        sorted_keys(ps),
    ensures
        map_of(insert_sorted(ps, k, v)) == map_of(ps).insert(k, v),
    decreases ps.len(),
{
    if ps.len() == 0 {
        let s = seq![(k, v)];
        assert(s.drop_first() =~= Seq::<(Seq<char>, Seq<char>)>::empty());
        assert(map_of(s.drop_first()) =~= Map::<Seq<char>, Seq<char>>::empty());
        assert(s[0] == (k, v));
        assert(map_of(s) =~= Map::<Seq<char>, Seq<char>>::empty().insert(k, v));
    } else if lex_lt(ps[0].0, k) {
        lemma_sorted_tail(ps);
        lemma_insert_sorted_map(ps.drop_first(), k, v);
        let rec = insert_sorted(ps.drop_first(), k, v);
        let r = seq![ps[0]] + rec;
        assert(r.drop_first() =~= rec);
        assert(r[0] == ps[0]);
        lemma_lex_irrefl(ps[0].0);
        assert(ps[0].0 != k);
        assert(map_of(r) =~= map_of(ps).insert(k, v));
    } else if ps[0].0 == k {
        let r = seq![(k, v)] + ps.drop_first();
        assert(r.drop_first() =~= ps.drop_first());
        assert(map_of(r) =~= map_of(ps).insert(k, v));
    } else {
        let r = seq![(k, v)] + ps;
        assert(r.drop_first() =~= ps);
        assert(map_of(r) =~= map_of(ps).insert(k, v));
    }
}

/// The tail of a sorted sequence is sorted.
proof fn lemma_sorted_tail(ps: Seq<(Seq<char>, Seq<char>)>)
    requires
        sorted_keys(ps),
        ps.len() > 0,
    ensures
        sorted_keys(ps.drop_first()),
{
    let t = ps.drop_first();
    assert forall|i: int| 0 <= i && i + 1 < t.len() implies #[trigger] lex_lt(
        t[i].0,
        t[i + 1].0,
    ) by {
        assert(t[i] == ps[i + 1]);
        assert(t[i + 1] == ps[i + 2]);
    }
}

/// In a sorted sequence the first key is strictly below every later one.
proof fn lemma_sorted_first_min(ps: Seq<(Seq<char>, Seq<char>)>)
    requires
        sorted_keys(ps),
        ps.len() > 0,
    ensures
        forall|i: int| 1 <= i < ps.len() ==> lex_lt(ps[0].0, #[trigger] ps[i].0),
    decreases ps.len(),
{
    lemma_sorted_tail(ps);
    if ps.len() > 1 {
        lemma_sorted_first_min(ps.drop_first());
        assert forall|i: int| 1 <= i < ps.len() implies lex_lt(ps[0].0, #[trigger] ps[i].0) by {
            if i > 1 {
                assert(ps.drop_first()[i - 1] == ps[i]);
                assert(ps.drop_first()[0] == ps[1]);
                assert(lex_lt(ps[1].0, ps[i].0));
                lemma_lex_trans(ps[0].0, ps[1].0, ps[i].0);
            }
        }
    }
}

/// A key is in the mapping exactly when some pair carries it.
proof fn lemma_map_of_contains(ps: Seq<(Seq<char>, Seq<char>)>, k: Seq<char>)
    ensures
        map_of(ps).dom().contains(k) <==> exists|i: int| 0 <= i < ps.len() && (#[trigger] ps[i]).0
            == k,
    decreases ps.len(),
{
    if ps.len() > 0 {
        lemma_map_of_contains(ps.drop_first(), k);
        if ps[0].0 == k {
            assert(ps[0].0 == k);
        } else if exists|i: int| 0 <= i < ps.drop_first().len() && (#[trigger] ps.drop_first()[i]).0
            == k {
            let i = choose|i: int|
                0 <= i < ps.drop_first().len() && (#[trigger] ps.drop_first()[i]).0 == k;
            assert(ps[i + 1] == ps.drop_first()[i]);
        } else if exists|i: int| 0 <= i < ps.len() && (#[trigger] ps[i]).0 == k {
            let i = choose|i: int| 0 <= i < ps.len() && (#[trigger] ps[i]).0 == k;
            assert(i > 0);
            assert(ps.drop_first()[i - 1] == ps[i]);
        }
    }
}

/// Two sorted pair sequences denoting the same mapping are the same
/// sequence.
proof fn lemma_sorted_unique(p1: Seq<(Seq<char>, Seq<char>)>, p2: Seq<(Seq<char>, Seq<char>)>)
    requires
        sorted_keys(p1),
        sorted_keys(p2),
        map_of(p1) == map_of(p2),
    ensures
        p1 == p2,
    decreases p1.len(),
{
    if p1.len() == 0 && p2.len() == 0 {
        assert(p1 =~= p2);
    } else if p1.len() == 0 {
        lemma_map_of_contains(p1, p2[0].0);
        lemma_map_of_contains(p2, p2[0].0);
        assert(false);
    } else if p2.len() == 0 {
        lemma_map_of_contains(p1, p1[0].0);
        lemma_map_of_contains(p2, p1[0].0);
        assert(false);
    } else {
        let k1 = p1[0].0;
        let k2 = p2[0].0;
        lemma_sorted_heads_equal(p1, p2);
        lemma_sorted_heads_equal(p2, p1);
        if k1 != k2 {
            lemma_lex_connected(k1, k2);
        }
        assert(k1 == k2);
        assert(map_of(p1)[k1] == p1[0].1);
        assert(map_of(p2)[k2] == p2[0].1);
        assert(p1[0].1 == p2[0].1);
        lemma_sorted_tail(p1);
        lemma_sorted_tail(p2);
        lemma_head_key_not_in_tail(p1);
        lemma_head_key_not_in_tail(p2);
        assert(map_of(p1.drop_first()) =~= map_of(p1).remove(k1));
        assert(map_of(p2.drop_first()) =~= map_of(p2).remove(k2));
        lemma_sorted_unique(p1.drop_first(), p2.drop_first());
        assert(p1[0] =~= p2[0]);
        assert forall|j: int| 0 <= j < p1.len() implies p1[j] == p2[j] by {
            if j > 0 {
                assert(p1[j] == p1.drop_first()[j - 1]);
                assert(p2[j] == p2.drop_first()[j - 1]);
            }
        }
        assert(p1 =~= p2);
    }
}

/// The first key of `p1` cannot be strictly below the first key of `p2`
/// when both denote the same mapping.
proof fn lemma_sorted_heads_equal(p1: Seq<(Seq<char>, Seq<char>)>, p2: Seq<(Seq<char>, Seq<char>)>)
    requires
        sorted_keys(p1),
        sorted_keys(p2),
        map_of(p1) == map_of(p2),
        p1.len() > 0,
        p2.len() > 0,
    ensures
        !lex_lt(p1[0].0, p2[0].0),
{
    let k1 = p1[0].0;
    let k2 = p2[0].0;
    if lex_lt(k1, k2) {
        lemma_map_of_contains(p1, k1);
        lemma_map_of_contains(p2, k1);
        let i = choose|i: int| 0 <= i < p2.len() && (#[trigger] p2[i]).0 == k1;
        if i == 0 {
            lemma_lex_irrefl(k1);
        } else {
            lemma_sorted_first_min(p2);
            assert(lex_lt(k2, p2[i].0));
            lemma_lex_trans(k1, k2, k1);
            lemma_lex_irrefl(k1);
        }
    }
}

/// In a sorted sequence, the first key occurs in no later pair.
proof fn lemma_head_key_not_in_tail(ps: Seq<(Seq<char>, Seq<char>)>)
    requires
        sorted_keys(ps),
        ps.len() > 0,
    ensures
        !map_of(ps.drop_first()).dom().contains(ps[0].0),
{
    lemma_map_of_contains(ps.drop_first(), ps[0].0);
    if map_of(ps.drop_first()).dom().contains(ps[0].0) {
        let i = choose|i: int|
            0 <= i < ps.drop_first().len() && (#[trigger] ps.drop_first()[i]).0 == ps[0].0;
        lemma_sorted_first_min(ps);
        assert(ps.drop_first()[i] == ps[i + 1]);
        assert(lex_lt(ps[0].0, ps[i + 1].0));
        lemma_lex_irrefl(ps[0].0);
    }
}

/// Canonicalization depends only on the key-to-value mapping: two
/// well-formed parameter sequences that denote the same mapping — however
/// their entries were inserted — have byte-identical canonical query
/// strings.
pub proof fn lemma_canonical_from_map(
    p1: Seq<(Seq<char>, Seq<char>)>,
    p2: Seq<(Seq<char>, Seq<char>)>,
)
    requires
        sorted_keys(p1),
        sorted_keys(p2),
        map_of(p1) == map_of(p2),
    ensures
        p1 == p2,
        canonical_of(p1) == canonical_of(p2),
{
    lemma_sorted_unique(p1, p2);
}

/// Appending a pair extends the canonical query string by `&` and the
/// pair's encoding (no separator when the string was empty).
proof fn lemma_canonical_snoc(ps: Seq<(Seq<char>, Seq<char>)>, p: (Seq<char>, Seq<char>))
    ensures
        ps.len() == 0 ==> canonical_of(ps.push(p)) == pair_encoding(p.0, p.1),
        ps.len() > 0 ==> canonical_of(ps.push(p)) == canonical_of(ps) + seq!['&'] + pair_encoding(
            p.0,
            p.1,
        ),
    decreases ps.len(),
{
    if ps.len() == 0 {
        assert(ps.push(p)[0] == p);
    } else {
        lemma_canonical_snoc(ps.drop_first(), p);
        assert(ps.push(p).drop_first() =~= ps.drop_first().push(p));
        if ps.len() == 1 {
            assert(canonical_of(ps.push(p)) =~= canonical_of(ps) + seq!['&'] + pair_encoding(
                p.0,
                p.1,
            ));
        } else {
            assert(canonical_of(ps.push(p)) =~= canonical_of(ps) + seq!['&'] + pair_encoding(
                p.0,
                p.1,
            ));
        }
    }
}

/// Whether the key's value enters the canonical query string raw.
fn is_raw_value_key(key: &str) -> (r: bool)
    ensures
        r == raw_value_key(key@),
{
    let eq = str_eq(key, "timestamp");
    if eq {
        true
    } else {
        str_starts_with(key, "file")
    }
}

/// The canonical query string of a parameter set: pairs in their held
/// order, keys always encoded, values encoded unless their key calls for
/// them raw, joined by `&`.
pub fn canonical_query(params: &ParamSet) -> (r: String)
    ensures
        r@ == canonical_of(params@),
{
    let entries = params.entries();
    let n = entries.len();
    let mut r = String::new();
    let mut i: usize = 0;
    while i < n
        invariant
            n == entries@.len(),
            n == params@.len(),
            forall|j: int|
                0 <= j < n ==> (#[trigger] entries@[j]).0@ == params@[j].0 && entries@[j].1@
                    == params@[j].1,
            i <= n,
            r@ == canonical_of(params@.take(i as int)),
        decreases n - i,
    {
        if i > 0 {
            push_char(&mut r, '&');
        }
        let key: &String = &entries[i].0;
        let value: &String = &entries[i].1;
        let enc_key = encode_rfc3986(key.as_str());
        r.append(enc_key.as_str());
        push_char(&mut r, '=');
        if is_raw_value_key(key.as_str()) {
            r.append(value.as_str());
        } else {
            let enc_value = encode_rfc3986(value.as_str());
            r.append(enc_value.as_str());
        }
        proof {
            lemma_canonical_snoc(params@.take(i as int), params@[i as int]);
            assert(params@.take(i + 1) =~= params@.take(i as int).push(params@[i as int]));
            assert(r@ =~= canonical_of(params@.take(i + 1)));
        }
        i += 1;
    }
    proof {
        assert(params@.take(n as int) =~= params@);
    }
    r
}

} // verus!
