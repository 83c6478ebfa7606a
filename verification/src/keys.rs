//! Affix names in sorted order. Flag codes are handed out in this order, so they depend only on
//! which names a dictionary defines, never on the order in which they were given.

use vstd::prelude::*;
use crate::text::{lex_lt, lemma_lex_irreflexive, lemma_lex_total, lemma_lex_transitive, text_lt};
use crate::types::{texts, Affix, AffixType, DictError, DictFault};

verus! {

/// Every element precedes every later one.
pub open spec fn strictly_sorted(s: Seq<Seq<char>>) -> bool {
    forall|i: int, j: int| 0 <= i < j < s.len() ==> lex_lt(#[trigger] s[i], #[trigger] s[j])
}

/// The first name, scanning from the front, that repeats an earlier one.
pub open spec fn first_duplicate(keys: Seq<Seq<char>>) -> Option<Seq<char>>
    decreases keys.len(),
{
    if keys.len() == 0 {
        None
    } else {
        match first_duplicate(keys.drop_last()) {
            Some(k) => Some(k),
            None => if keys.drop_last().contains(keys.last()) {
                Some(keys.last())
            } else {
                None
            },
        }
    }
}

/// A name that repeats within a prefix of `s` is the first repeat of all of `s`.
proof fn lemma_first_duplicate_prefix(s: Seq<Seq<char>>, m: int)
    requires
        0 <= m <= s.len(),
        first_duplicate(s.take(m)) is Some,
    ensures
        first_duplicate(s) == first_duplicate(s.take(m)),
    decreases s.len(),
{
    if m == s.len() {
        assert(s.take(m) =~= s);
    } else {
        assert(s.drop_last().take(m) =~= s.take(m));
        lemma_first_duplicate_prefix(s.drop_last(), m);
    }
}

/// The names of a list of named affixes.
pub open spec fn affix_names(affixes: Seq<(String, Affix)>) -> Seq<Seq<char>> {
    affixes.map_values(|p: (String, Affix)| p.0@)
}

/// The strictly sorted arrangement of a set of names.
pub open spec fn sorted_order(keys: Seq<Seq<char>>) -> Seq<Seq<char>> {
    choose|s: Seq<Seq<char>>| strictly_sorted(s) && s.to_set() == keys.to_set()
}

/// A strictly sorted sequence is determined by the set of its elements.
pub proof fn lemma_sorted_unique(a: Seq<Seq<char>>, b: Seq<Seq<char>>)
    requires
        strictly_sorted(a),
        strictly_sorted(b),
        a.to_set() == b.to_set(),
    ensures
        a == b,
    decreases a.len(),
{
    if a.len() == 0 {
        if b.len() > 0 {
            assert(b.to_set().contains(b[0]));
        }
        assert(a =~= b);
    } else {
        assert(a.to_set().contains(a[0]));
        assert(b.to_set().contains(a[0]));
        let j = choose|j: int| 0 <= j < b.len() && b[j] == a[0];
        assert(a.to_set().contains(b[0]));
        let i = choose|i: int| 0 <= i < a.len() && a[i] == b[0];
        if j > 0 {
            assert(lex_lt(b[0], b[j]));
            if i > 0 {
                assert(lex_lt(a[0], a[i]));
                lemma_lex_total(a[0], b[0]);
            } else {
                lemma_lex_irreflexive(a[0]);
            }
        }
        assert(b[0] == a[0]);
        let x = a[0];
        assert forall|k: int| 0 <= k < a.drop_first().len() implies a.drop_first()[k] != x by {
            assert(lex_lt(a[0], a[k + 1]));
            lemma_lex_irreflexive(x);
        }
        assert forall|k: int| 0 <= k < b.drop_first().len() implies b.drop_first()[k] != x by {
            assert(lex_lt(b[0], b[k + 1]));
            lemma_lex_irreflexive(x);
        }
        assert(a.drop_first().to_set() =~= a.to_set().remove(x)) by {
            assert forall|y: Seq<char>| a.to_set().remove(x).contains(y) implies #[trigger] a.drop_first().to_set().contains(y) by {
                let k = choose|k: int| 0 <= k < a.len() && a[k] == y;
                assert(a.drop_first()[k - 1] == y);
            }
        }
        assert(b.drop_first().to_set() =~= b.to_set().remove(x)) by {
            assert forall|y: Seq<char>| b.to_set().remove(x).contains(y) implies #[trigger] b.drop_first().to_set().contains(y) by {
                let k = choose|k: int| 0 <= k < b.len() && b[k] == y;
                assert(b.drop_first()[k - 1] == y);
            }
        }
        lemma_sorted_unique(a.drop_first(), b.drop_first());
        assert(a =~= b) by {
            assert forall|k: int| 0 <= k < a.len() implies a[k] == b[k] by {
                if k > 0 {
                    assert(a[k] == a.drop_first()[k - 1]);
                    assert(b[k] == b.drop_first()[k - 1]);
                }
            }
        }
    }
}

/// A strictly sorted sequence with the right elements is the sorted order of those elements.
pub proof fn lemma_is_sorted_order(s: Seq<Seq<char>>, keys: Seq<Seq<char>>)
    requires
        strictly_sorted(s),
        s.to_set() == keys.to_set(),
    ensures
        sorted_order(keys) == s,
{
    let t = sorted_order(keys);
    assert(strictly_sorted(t) && t.to_set() == keys.to_set());
    lemma_sorted_unique(s, t);
}

/// The names of `affixes` in strictly increasing order, or the first name that occurs twice.
pub fn get_sorted_affix_keys(affixes: &Vec<(String, Affix)>, affix_type: AffixType) -> (r: Result<
    Vec<String>,
    DictError,
>)
    ensures
        match r {
            Ok(v) => {
                &&& first_duplicate(affix_names(affixes@)) is None
                &&& texts(v@) == sorted_order(affix_names(affixes@))
                &&& strictly_sorted(texts(v@))
                &&& texts(v@).to_set() == affix_names(affixes@).to_set()
                &&& v.len() == affixes.len()
            },
            Err(e) => {
                &&& first_duplicate(affix_names(affixes@)) matches Some(k)
                &&& e@ == DictFault::DuplicateKey(affix_type, k)
            },
        },
{
    let ghost names = affix_names(affixes@);
    let mut res: Vec<String> = Vec::new();
    let mut i: usize = 0;
    assert(names.take(0) =~= Seq::<Seq<char>>::empty());
    assert(texts(res@).to_set() =~= names.take(0).to_set());
    while i < affixes.len()
        invariant
            names == affix_names(affixes@),
            i <= affixes.len(),
            res.len() == i,
            strictly_sorted(texts(res@)),
            texts(res@).to_set() == names.take(i as int).to_set(),
            first_duplicate(names.take(i as int)) is None,
        decreases affixes.len() - i,
    {
        let key = &affixes[i].0;
        let ghost s = texts(res@);
        let ghost k = key@;
        assert(names[i as int] == k);
        assert(names.take(i + 1).drop_last() =~= names.take(i as int));
        assert(names.take(i + 1).last() == k);
        // Binary search for the first position whose name does not precede `key`.
        let mut lo: usize = 0;
        let mut hi: usize = res.len();
        while lo < hi
            invariant
                s == texts(res@),
                k == key@,
                strictly_sorted(s),
                lo <= hi <= res.len(),
                forall|t: int| 0 <= t < lo ==> lex_lt(#[trigger] s[t], k),
                forall|t: int| hi <= t < s.len() ==> (lex_lt(k, #[trigger] s[t]) || s[t] == k),
            decreases hi - lo,
        {
            let mid = lo + (hi - lo) / 2;
            assert(s[mid as int] == res@[mid as int]@);
            if text_lt(res[mid].as_str(), key.as_str()) {
                proof {
                    assert forall|t: int| 0 <= t < mid + 1 implies lex_lt(#[trigger] s[t], k) by {
                        if t < mid {
                            lemma_lex_transitive(s[t], s[mid as int], k);
                        }
                    }
                }
                lo = mid + 1;
            } else {
                proof {
                    lemma_lex_total(k, s[mid as int]);
                    assert forall|t: int| mid <= t < s.len() implies (lex_lt(k, #[trigger] s[t]) || s[t] == k) by {
                        if t > mid {
                            assert(lex_lt(s[mid as int], s[t]));
                            if s[mid as int] != k {
                                lemma_lex_transitive(k, s[mid as int], s[t]);
                            }
                        }
                    }
                }
                hi = mid;
            }
        }
        let j = lo;
        let at_end = j == res.len();
        if !at_end {
            assert(s[j as int] == res@[j as int]@);
            if res[j] == *key {
                proof {
                    assert(s.to_set().contains(k));
                    assert(names.take(i as int).to_set().contains(k));
                    assert(names.take(i as int).contains(k));
                    assert(first_duplicate(names.take(i + 1)) == Some(k));
                    lemma_first_duplicate_prefix(names, i + 1);
                }
                return Err(DictError::DuplicateKey { affix_type, key: key.clone() });
            }
            assert(lex_lt(k, s[j as int]));
        }
        proof {
            assert forall|t: int| 0 <= t < s.len() implies s[t] != k by {
                if t < j {
                    assert(lex_lt(s[t], k));
                    lemma_lex_irreflexive(k);
                } else {
                    assert(!at_end);
                    if t > j {
                        assert(lex_lt(s[j as int], s[t]));
                        lemma_lex_transitive(k, s[j as int], s[t]);
                    }
                    lemma_lex_irreflexive(k);
                }
            }
            if names.take(i as int).contains(k) {
                let t = choose|t: int| 0 <= t < i && names.take(i as int)[t] == k;
                assert(names.take(i as int).to_set().contains(k));
                assert(s.to_set().contains(k));
            }
        }
        res.insert(j, key.clone());
        proof {
            let n = texts(res@);
            assert(n =~= s.insert(j as int, k));
            assert forall|p: int, q: int| 0 <= p < q < n.len() implies lex_lt(
                #[trigger] n[p],
                #[trigger] n[q],
            ) by {
                if q < j {
                    assert(n[p] == s[p] && n[q] == s[q]);
                } else if q == j {
                    assert(n[p] == s[p]);
                } else if p < j {
                    assert(n[p] == s[p] && n[q] == s[q - 1]);
                    if q - 1 == j {
                        lemma_lex_transitive(s[p], k, s[q - 1]);
                    } else {
                        lemma_lex_transitive(k, s[j as int], s[q - 1]);
                        lemma_lex_transitive(s[p], k, s[q - 1]);
                    }
                } else if p == j {
                    assert(n[q] == s[q - 1]);
                    if q - 1 > j {
                        lemma_lex_transitive(k, s[j as int], s[q - 1]);
                    }
                } else {
                    assert(n[p] == s[p - 1] && n[q] == s[q - 1]);
                }
            }
            let ti1 = names.take(i + 1);
            assert(n.to_set() =~= ti1.to_set()) by {
                assert forall|y: Seq<char>| n.to_set().contains(y) implies #[trigger] ti1.to_set().contains(y) by {
                    let t = choose|t: int| 0 <= t < n.len() && n[t] == y;
                    if t == j {
                        assert(ti1[i as int] == y);
                    } else {
                        let u = if t < j { t } else { t - 1 };
                        assert(s[u] == y);
                        assert(s.to_set().contains(y));
                        assert(names.take(i as int).to_set().contains(y));
                        let w = choose|w: int| 0 <= w < i && names.take(i as int)[w] == y;
                        assert(ti1[w] == y);
                    }
                }
                assert forall|y: Seq<char>| ti1.to_set().contains(y) implies #[trigger] n.to_set().contains(y) by {
                    let t = choose|t: int| 0 <= t < ti1.len() && ti1[t] == y;
                    if t == i {
                        assert(n[j as int] == y);
                    } else {
                        assert(names.take(i as int)[t] == y);
                        assert(names.take(i as int).to_set().contains(y));
                        assert(s.to_set().contains(y));
                        let u = choose|u: int| 0 <= u < s.len() && s[u] == y;
                        if u < j {
                            assert(n[u] == y);
                        } else {
                            assert(n[u + 1] == y);
                        }
                    }
                }
            }
        }
        i = i + 1;
    }
    proof {
        assert(names.take(i as int) =~= names);
        lemma_is_sorted_order(texts(res@), names);
    }
    Ok(res)
}

} // verus!
