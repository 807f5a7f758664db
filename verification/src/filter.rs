//! The set of discriminants a connection asked for, and the test an event has
//! to pass to be sent to it.

use vstd::prelude::*;
use vstd::std_specs::cmp::PartialEqSpec;

verus! {

/// Whether `tag` equals one of the discriminants in `wanted`.
pub open spec fn lists<D: PartialEq>(wanted: Seq<D>, tag: D) -> bool {
    exists|i: int| 0 <= i < wanted.len() && #[trigger] wanted[i].eq_spec(&tag)
}

/// Whether a connection that asked for `wanted` receives an event whose
/// discriminant is `tag`. An empty list asks for everything; otherwise the
/// discriminant has to be one of the listed ones.
pub open spec fn admits<D: PartialEq>(wanted: Seq<D>, tag: D) -> bool {
    wanted.len() == 0 || lists(wanted, tag)
}

/// `parse_tag` may turn every one of `tags` into the discriminant at the same
/// place in `out`.
pub open spec fn parses_to<D, F: Fn(&String) -> Result<D, String>>(
    parse_tag: F,
    tags: Seq<String>,
    out: Seq<D>,
) -> bool {
    &&& out.len() == tags.len()
    &&& forall|i: int|
        0 <= i < tags.len() ==> call_ensures(parse_tag, (&#[trigger] tags[i],), Ok::<D, String>(out[i]))
}

/// `parse_tag` may turn `tag` into some discriminant.
pub open spec fn accepts<D, F: Fn(&String) -> Result<D, String>>(parse_tag: F, tag: String) -> bool {
    exists|d: D| call_ensures(parse_tag, (&tag,), Ok::<D, String>(d))
}

/// `parse_tag` may accept every tag before place `k` and turn down the one at `k`
/// with `reason`.
pub open spec fn rejects_at<D, F: Fn(&String) -> Result<D, String>>(
    parse_tag: F,
    tags: Seq<String>,
    k: int,
    reason: String,
) -> bool {
    &&& 0 <= k < tags.len()
    &&& call_ensures(parse_tag, (&tags[k],), Err::<D, String>(reason))
    &&& forall|i: int| 0 <= i < k ==> #[trigger] accepts::<D, F>(parse_tag, tags[i])
}

/// `parse_tag` may turn down one of `tags` with `reason`, having accepted every
/// tag before it.
pub open spec fn rejects<D, F: Fn(&String) -> Result<D, String>>(
    parse_tag: F,
    tags: Seq<String>,
    reason: String,
) -> bool {
    exists|k: int| rejects_at::<D, F>(parse_tag, tags, k, reason)
}

/// The discriminants one connection asked for, in the order it named them.
/// Empty means no filtering.
pub struct FilterSet<D> {
    wanted: Vec<D>,
}

impl<D> View for FilterSet<D> {
    type V = Seq<D>;

    closed spec fn view(&self) -> Seq<D> {
        self.wanted@
    }
}

impl<D> FilterSet<D> {
    /// The filter that asks for everything.
    pub fn wildcard() -> (filter: Self)
        ensures
            filter@ == Seq::<D>::empty(),
    {
        FilterSet { wanted: Vec::new() }
    }

    /// The filter that asks for the discriminants in `wanted`.
    pub fn from_tags(wanted: Vec<D>) -> (filter: Self)
        ensures
            filter@ == wanted@,
    {
        FilterSet { wanted }
    }

    /// Whether the filter asks for everything.
    pub fn is_wildcard(&self) -> (r: bool)
        ensures
            r == (self@.len() == 0),
    {
        self.wanted.len() == 0
    }

    /// How many discriminants the filter lists.
    pub fn len(&self) -> (n: usize)
        ensures
            n == self@.len(),
    {
        self.wanted.len()
    }

    /// Parses the tag names of a connection, front to back, and stops at the
    /// first one that `parse_tag` turns down: its reason is the error, and no
    /// later tag is looked at. An empty list always parses, to the wildcard.
    pub fn parse<F: Fn(&String) -> Result<D, String>>(tags: &Vec<String>, parse_tag: F) -> (r: Result<
        Self,
        String,
    >)
        requires
            forall|t: &String| call_requires(parse_tag, (t,)),
        ensures
            r matches Ok(filter) ==> parses_to(parse_tag, tags@, filter@),
            r matches Err(reason) ==> rejects::<D, F>(parse_tag, tags@, reason),
            tags@.len() == 0 ==> r is Ok,
    {
        let mut wanted: Vec<D> = Vec::new();
        let mut i: usize = 0;
        while i < tags.len()
            invariant
                i <= tags@.len(),
                forall|t: &String| call_requires(parse_tag, (t,)),
                parses_to(parse_tag, tags@.take(i as int), wanted@),
            decreases tags@.len() - i,
        {
            match parse_tag(&tags[i]) {
                Ok(tag) => {
                    wanted.push(tag);
                },
                Err(reason) => {
                    proof {
                        assert forall|j: int| 0 <= j < i implies #[trigger] accepts::<D, F>(
                            parse_tag,
                            tags@[j],
                        ) by {
                            assert(tags@.take(i as int)[j] == tags@[j]);
                            assert(call_ensures(parse_tag, (&tags@[j],), Ok::<D, String>(wanted@[j])));
                        }
                        assert(rejects_at::<D, F>(parse_tag, tags@, i as int, reason));
                        assert(rejects::<D, F>(parse_tag, tags@, reason));
                    }
                    return Err(reason);
                },
            }
            proof {
                assert forall|j: int| 0 <= j < i + 1 implies call_ensures(
                    parse_tag,
                    (&#[trigger] tags@.take(i + 1)[j],),
                    Ok::<D, String>(wanted@[j]),
                ) by {
                    if j < i {
                        assert(tags@.take(i as int)[j] == tags@[j]);
                    }
                }
            }
            i += 1;
        }
        proof {
            assert(tags@.take(i as int) =~= tags@);
        }
        Ok(FilterSet { wanted })
    }
}

impl<D: PartialEq> FilterSet<D> {
    /// Whether an event with discriminant `tag` is sent to the connection that
    /// holds this filter.
    pub fn admits(&self, tag: &D) -> (r: bool)
        ensures
            D::obeys_eq_spec() ==> r == admits(self@, *tag),
            self@.len() == 0 ==> r,
    {
        if self.is_wildcard() {
            return true;
        }
        let mut i: usize = 0;
        while i < self.wanted.len()
            invariant
                i <= self.wanted@.len(),
                D::obeys_eq_spec() ==> forall|j: int| 0 <= j < i ==> !(#[trigger] self.wanted@[j]).eq_spec(tag),
            decreases self.wanted@.len() - i,
        {
            if self.wanted[i] == *tag {
                return true;
            }
            i += 1;
        }
        false
    }
}

/// One tag that the parser accepts in no way fails the whole list: no list of
/// discriminants is what the tags parse to.
pub proof fn lemma_unparseable_tag_fails_the_list<D, F: Fn(&String) -> Result<D, String>>(
    parse_tag: F,
    tags: Seq<String>,
    k: int,
    out: Seq<D>,
)
    requires
        0 <= k < tags.len(),
        !accepts::<D, F>(parse_tag, tags[k]),
    ensures
        !parses_to(parse_tag, tags, out),
{
    if parses_to(parse_tag, tags, out) {
        assert(call_ensures(parse_tag, (&tags[k],), Ok::<D, String>(out[k])));
    }
}

} // verus!
