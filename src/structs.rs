//! Plain values that the service hands out: error and message bodies, login
//! links, and the headers recorded with a view.

use vstd::prelude::*;

verus! {

/// An error body.
#[derive(Debug, Clone)]
pub struct BasicError {
    pub error: String,
}

impl From<String> for BasicError {
    fn from(e: String) -> (r: Self) {
        BasicError { error: e }
    }
}

impl vstd::std_specs::convert::FromSpecImpl<String> for BasicError {
    open spec fn obeys_from_spec() -> bool {
        true
    }

    open spec fn from_spec(e: String) -> BasicError {
        BasicError { error: e }
    }
}

/// A message body.
#[derive(Debug, Clone)]
pub struct BasicResponse {
    pub message: String,
}

impl From<String> for BasicResponse {
    fn from(e: String) -> (r: Self) {
        BasicResponse { message: e }
    }
}

impl vstd::std_specs::convert::FromSpecImpl<String> for BasicResponse {
    open spec fn obeys_from_spec() -> bool {
        true
    }

    open spec fn from_spec(e: String) -> BasicResponse {
        BasicResponse { message: e }
    }
}

/// A login link of an identity provider.
#[derive(Debug, Clone)]
pub struct AuthUrl {
    pub url: String,
    pub name: String,
}

/// The login links of all identity providers.
#[derive(Debug, Clone)]
pub struct AuthUrls(pub Vec<AuthUrl>);

/// Request headers grouped by name: each name once, with its values in the
/// order they came, names in the order of their first appearance.
#[derive(Debug, Clone)]
pub struct HeaderMapDef(pub Vec<(String, Vec<String>)>);

pub type HeaderGroups = Seq<(Seq<char>, Seq<Seq<char>>)>;

/// The first group from index `k` on with name `n`, or -1.
pub open spec fn find_group(g: HeaderGroups, n: Seq<char>, k: int) -> int
    decreases g.len() - k,
{
    if k < 0 || k >= g.len() {
        -1
    } else if g[k].0 == n {
        k
    } else {
        find_group(g, n, k + 1)
    }
}

/// The headers `pairs` grouped by name.
pub open spec fn group_headers(pairs: Seq<(Seq<char>, Seq<char>)>) -> HeaderGroups
    decreases pairs.len(),
{
    if pairs.len() == 0 {
        Seq::empty()
    } else {
        let g = group_headers(pairs.drop_last());
        let (n, v) = pairs.last();
        let i = find_group(g, n, 0);
        if i >= 0 {
            g.update(i, (n, g[i].1.push(v)))
        } else {
            g.push((n, seq![v]))
        }
    }
}

pub open spec fn pair_views(p: Seq<(String, String)>) -> Seq<(Seq<char>, Seq<char>)> {
    p.map_values(|x: (String, String)| (x.0@, x.1@))
}

pub open spec fn group_views(g: Seq<(String, Vec<String>)>) -> HeaderGroups {
    g.map_values(|x: (String, Vec<String>)| (x.0@, x.1@.map_values(|s: String| s@)))
}

proof fn lemma_find_group_range(g: HeaderGroups, n: Seq<char>, k: int)
    requires
        k >= 0,
    ensures
        find_group(g, n, k) == -1 || (k <= find_group(g, n, k) < g.len() && g[find_group(
            g,
            n,
            k,
        )].0 == n),
    decreases g.len() - k,
{
    if k < g.len() && g[k].0 != n {
        lemma_find_group_range(g, n, k + 1);
    }
}

impl HeaderMapDef {
    /// Groups headers, given as name and value, by name.
    pub fn from_pairs(pairs: &Vec<(String, String)>) -> (r: HeaderMapDef)
        ensures
            group_views(r.0@) == group_headers(pair_views(pairs@)),
    {
        let mut groups: Vec<(String, Vec<String>)> = Vec::new();
        let mut i: usize = 0;
        while i < pairs.len()
            invariant
                i <= pairs.len(),
                group_views(groups@) == group_headers(pair_views(pairs@.take(i as int))),
            decreases pairs.len() - i,
        {
            let ghost before = group_views(groups@);
            let name = &pairs[i].0;
            let value = pairs[i].1.clone();
            let mut j: usize = 0;
            while j < groups.len() && groups[j].0 != *name
                invariant
                    j <= groups.len(),
                    before == group_views(groups@),
                    find_group(before, name@, 0) == find_group(before, name@, j as int),
                decreases groups.len() - j,
            {
                j = j + 1;
            }
            let ghost p = pair_views(pairs@.take(i + 1));
            proof {
                assert(p.drop_last() =~= pair_views(pairs@.take(i as int)));
                assert(p.last() == (name@, value@));
            }
            if j < groups.len() {
                assert(before[j as int].0 == name@);
                let mut entry = groups.remove(j);
                entry.1.push(value);
                groups.insert(j, entry);
                proof {
                    assert(find_group(before, name@, 0) == j);
                    assert(group_views(groups@) =~= before.update(
                        j as int,
                        (name@, before[j as int].1.push(value@)),
                    )) by {
                        assert forall|k: int| 0 <= k < groups@.len() implies #[trigger] group_views(
                            groups@,
                        )[k] == before.update(
                            j as int,
                            (name@, before[j as int].1.push(value@)),
                        )[k] by {
                            if k == j {
                                assert(entry.1@.map_values(|s: String| s@) =~= before[j as int].1.push(
                                    value@,
                                ));
                            }
                        }
                    }
                }
            } else {
                let mut vs: Vec<String> = Vec::new();
                vs.push(value);
                groups.push((name.clone(), vs));
                proof {
                    lemma_find_group_range(before, name@, j as int);
                    assert(vs@.map_values(|s: String| s@) =~= seq![value@]);
                    assert(group_views(groups@) =~= before.push((name@, seq![value@])));
                }
            }
            i = i + 1;
        }
        assert(pairs@.take(i as int) =~= pairs@);
        HeaderMapDef(groups)
    }
}

} // verus!
