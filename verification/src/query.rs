//! The query layer: a case-sensitive substring filter over the store's
//! metric names. The empty query matches every name.

use vstd::prelude::*;

use vstd::string::StrSliceExecFns;

use crate::store::ClogTracker;

verus! {

/// `q` occurs in `h` as a contiguous run of characters (case-sensitive).
/// The empty sequence occurs in every sequence, at offset zero.
pub open spec fn is_substring(q: Seq<char>, h: Seq<char>) -> bool {
    exists|k: int|
        0 <= k && k + q.len() <= h.len() && #[trigger] h.subrange(k, k + q.len() as int) == q
}

/// The filtered name list: the names that the query matches, in store order.
pub open spec fn filter_names(names: Seq<Seq<char>>, q: Seq<char>) -> Seq<Seq<char>>
    decreases names.len(),
{
    if names.len() == 0 {
        Seq::empty()
    } else {
        let rest = filter_names(names.drop_last(), q);
        if is_substring(q, names.last()) {
            rest.push(names.last())
        } else {
            rest
        }
    }
}

/// Filtering distributes over appending one name.
pub proof fn lemma_filter_names_push(names: Seq<Seq<char>>, q: Seq<char>, x: Seq<char>)
    ensures
        filter_names(names.push(x), q) == (if is_substring(q, x) {
            filter_names(names, q).push(x)
        } else {
            filter_names(names, q)
        }),
{
    assert(names.push(x).len() == names.len() + 1);
    assert(names.push(x).drop_last() =~= names);
    assert(names.push(x).last() == x);
}

/// Whether `hay`, starting at character offset `k`, carries `needle`.
fn match_at(hay: &str, needle: &str, k: usize) -> (r: bool)
    requires
        k + needle@.len() <= hay@.len(),
    ensures
        r == (hay@.subrange(k as int, k as int + needle@.len() as int) == needle@),
{
    let hn = hay.unicode_len();
    let qn = needle.unicode_len();
    let ghost target = hay@.subrange(k as int, k as int + needle@.len() as int);
    let mut j: usize = 0;
    while j < qn
        invariant
            hn == hay@.len(),
            qn == needle@.len(),
            k + qn <= hn,
            j <= qn,
            target == hay@.subrange(k as int, k as int + qn as int),
            forall|j2: int| 0 <= j2 < j ==> #[trigger] hay@[k + j2] == needle@[j2],
        decreases qn - j,
    {
        let hc = hay.get_char(k + j);
        let nc = needle.get_char(j);
        if hc != nc {
            proof {
                assert(target[j as int] == hay@[k + j]);
                assert(target != needle@);
            }
            return false;
        }
        j = j + 1;
    }
    proof {
        assert forall|x: int| 0 <= x < qn implies target[x] == needle@[x] by {
            assert(target[x] == hay@[k + x]);
        }
        assert(target =~= needle@);
    }
    true
}

/// Case-sensitive substring test over the character sequences of two string
/// slices.
pub fn contains_substring(hay: &str, needle: &str) -> (r: bool)
    ensures
        r == is_substring(needle@, hay@),
{
    let hn = hay.unicode_len();
    let qn = needle.unicode_len();
    if qn > hn {
        return false;
    }
    let mut k: usize = 0;
    loop
        invariant
            hn == hay@.len(),
            qn == needle@.len(),
            qn <= hn,
            k <= hn - qn,
            forall|k2: int|
                0 <= k2 < k ==> #[trigger] hay@.subrange(k2, k2 + needle@.len() as int)
                    != needle@,
        decreases hn - qn - k,
    {
        if match_at(hay, needle, k) {
            proof {
                assert(is_substring(needle@, hay@)) by {
                    assert(hay@.subrange(k as int, k as int + needle@.len() as int) == needle@);
                }
            }
            return true;
        }
        if k == hn - qn {
            proof {
                assert forall|k2: int|
                    0 <= k2 && k2 + needle@.len() <= hay@.len() implies #[trigger] hay@.subrange(
                    k2,
                    k2 + needle@.len() as int,
                ) != needle@ by {
                    assert(k2 <= k);
                }
            }
            return false;
        }
        k = k + 1;
    }
}

impl ClogTracker {
    /// The filtered name list for `query`: every metric name that `query`
    /// matches, in series-creation order.
    pub fn filtered_names(&self, query: &String) -> (r: Vec<String>)
        ensures
            r.deep_view() == filter_names(self.names(), query@),
    {
        let names = self.snapshot_metric_names();
        let mut r: Vec<String> = Vec::new();
        let mut i: usize = 0;
        proof {
            assert(r.deep_view() =~= filter_names(self.names().take(0), query@));
        }
        while i < names.len()
            invariant
                names.deep_view() == self.names(),
                i <= names@.len(),
                r.deep_view() == filter_names(self.names().take(i as int), query@),
            decreases names@.len() - i,
        {
            let ghost r0 = r;
            let ghost prefix = self.names().take(i as int);
            let ghost nm = self.names()[i as int];
            proof {
                assert(names@[i as int]@ == nm);
            }
            if contains_substring(names[i].as_str(), query.as_str()) {
                r.push(names[i].clone());
                proof {
                    assert forall|k: int| 0 <= k < r@.len() implies r.deep_view()[k]
                        == filter_names(prefix, query@).push(nm)[k] by {
                        if k < r0@.len() {
                            assert(r@[k] == r0@[k]);
                            assert(r0.deep_view()[k] == filter_names(prefix, query@)[k]);
                        } else {
                            assert(r@[k]@ == nm);
                        }
                    }
                    assert(r.deep_view() =~= filter_names(prefix, query@).push(nm));
                }
            }
            proof {
                assert(self.names().take(i + 1) =~= prefix.push(nm));
                lemma_filter_names_push(prefix, query@, nm);
            }
            i = i + 1;
        }
        proof {
            assert(self.names().take(names@.len() as int) =~= self.names());
        }
        r
    }
}

} // verus!
