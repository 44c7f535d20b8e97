//! Query strings: reading them with serde_qs into a map from names to values,
//! and looking names up.

use vstd::prelude::*;
use crate::text::{lowercase, lowercase_text};

verus! {

#[verifier::external_type_specification]
#[verifier::external_body]
pub struct ExQsError(serde_qs::Error);

/// The map from names to values that serde_qs reads from a query string into a
/// `HashMap<String, String>`, if it reads one.
pub uninterp spec fn query_map_of(s: Seq<char>) -> Option<Map<Seq<char>, Seq<char>>>;

/// No name occurs twice among `pairs`.
pub open spec fn names_distinct(pairs: Seq<(String, String)>) -> bool {
    forall|i: int, j: int|
        0 <= i < j < pairs.len() ==> #[trigger] pairs[i].0@ != #[trigger] pairs[j].0@
}

/// `pairs` holds exactly the entries of `m`, each once.
pub open spec fn pairs_hold(pairs: Seq<(String, String)>, m: Map<Seq<char>, Seq<char>>) -> bool {
    &&& names_distinct(pairs)
    &&& forall|k: Seq<char>| #[trigger]
        m.contains_key(k) <==> exists|i: int| 0 <= i < pairs.len() && pairs[i].0@ == k
    &&& forall|i: int| 0 <= i < pairs.len() ==> m[#[trigger] pairs[i].0@] == pairs[i].1@
}

/// `serde_qs::from_str::<HashMap<String, String>>(s)`, its entries handed out
/// as pairs in the map's own order. Claimed: success and the entries are a
/// function of the text; the order of the pairs is left unsaid.
#[verifier::external_body]
fn read_query_pairs(s: &str) -> (res: Result<Vec<(String, String)>, serde_qs::Error>)
    ensures
        res is Ok <==> query_map_of(s@) is Some,
        res matches Ok(v) ==> pairs_hold(v@, query_map_of(s@).unwrap()),
{
    match serde_qs::from_str::<std::collections::HashMap<String, String>>(s) {
        Ok(m) => Ok(m.into_iter().collect()),
        Err(e) => Err(e),
    }
}

/// The parameters of a query string, by name.
pub struct QueryParams {
    pairs: Vec<(String, String)>,
}

impl QueryParams {
    #[verifier::type_invariant]
    spec fn names_once(self) -> bool {
        names_distinct(self.pairs@)
    }
}

/// The map that distinct-named `pairs` make.
pub open spec fn map_of_pairs(pairs: Seq<(String, String)>) -> Map<Seq<char>, Seq<char>> {
    Map::new(
        |k: Seq<char>| exists|i: int| 0 <= i < pairs.len() && pairs[i].0@ == k,
        |k: Seq<char>|
            pairs[choose|i: int| 0 <= i < pairs.len() && pairs[i].0@ == k].1@,
    )
}

impl View for QueryParams {
    type V = Map<Seq<char>, Seq<char>>;

    closed spec fn view(&self) -> Map<Seq<char>, Seq<char>> {
        map_of_pairs(self.pairs@)
    }
}

/// Why a query string could not be used.
#[derive(Clone, Copy, Debug, PartialEq, Eq, Structural)]
pub enum QueryError {
    /// serde_qs could not read it as a map from names to values.
    Unreadable,
}

impl QueryParams {
    /// Reads the query string `s` (serde_qs, into a map of strings).
    pub fn parse(s: &str) -> (res: Result<QueryParams, QueryError>)
        ensures
            match query_map_of(s@) {
                None => res == Err::<QueryParams, QueryError>(QueryError::Unreadable),
                Some(m) => res matches Ok(p) && p@ == m,
            },
    {
        match read_query_pairs(s) {
            Ok(pairs) => {
                let ghost m = query_map_of(s@).unwrap();
                let p = QueryParams { pairs };
                assert(p@ =~= m) by {
                    assert forall|k: Seq<char>| #[trigger] p@.contains_key(k) implies p@[k] == m[k] by {
                        let i = choose|i: int| 0 <= i < p.pairs@.len() && p.pairs@[i].0@ == k;
                        assert(m[p.pairs@[i].0@] == p.pairs@[i].1@);
                    }
                    assert forall|k: Seq<char>| #[trigger] m.contains_key(k) implies p@.contains_key(k) by {
                        assert(m.contains_key(k));
                    }
                }
                Ok(p)
            },
            Err(_) => Err(QueryError::Unreadable),
        }
    }

    /// The value given for `name`, if any.
    pub fn get(&self, name: &str) -> (res: Option<String>)
        ensures
            match res {
                Some(v) => self@.contains_key(name@) && v@ == self@[name@],
                None => !self@.contains_key(name@),
            },
    {
        proof {
            use_type_invariant(self);
        }
        let wanted = String::from_str(name);
        let n = self.pairs.len();
        let mut i: usize = 0;
        while i < n
            invariant
                n == self.pairs@.len(),
                i <= n,
                wanted@ == name@,
                names_distinct(self.pairs@),
                forall|j: int| 0 <= j < i ==> self.pairs@[j].0@ != name@,
            decreases n - i,
        {
            if self.pairs[i].0 == wanted {
                let ghost k = name@;
                proof {
                    assert(self.pairs@[i as int].0@ == k);
                    assert(self@.contains_key(k));
                    let c = choose|j: int| 0 <= j < self.pairs@.len() && self.pairs@[j].0@ == k;
                    if c != i {
                        if c < i {
                            assert(self.pairs@[c].0@ != self.pairs@[i as int].0@);
                        } else {
                            assert(self.pairs@[i as int].0@ != self.pairs@[c].0@);
                        }
                    }
                }
                return Some(self.pairs[i].1.clone());
            }
            i = i + 1;
        }
        None
    }
}

/// Lowercases the query string `s` and reads it, as the service does before
/// it looks at any parameter.
pub fn parse_lowercased(s: &str) -> (res: Result<QueryParams, QueryError>)
    ensures
        match query_map_of(lowercase_text(s@)) {
            None => res == Err::<QueryParams, QueryError>(QueryError::Unreadable),
            Some(m) => res matches Ok(p) && p@ == m,
        },
{
    let lowered = lowercase(s);
    QueryParams::parse(lowered.as_str())
}

} // verus!
