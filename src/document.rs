//! Rules on request and response documents of the read and registration API.
use vstd::prelude::*;

verus! {

/// What a document's primary data is.
#[derive(Clone, Copy, Debug, PartialEq, Eq, Structural)]
pub enum Primary {
    /// No `data` member.
    Absent,
    /// `data` is null.
    Null,
    /// `data` is one resource.
    Single,
    /// `data` is a list of resources.
    Many,
}

/// The members of a document that its checks look at.
#[derive(Clone, Copy, Debug, PartialEq, Eq, Structural)]
pub struct DocumentOutline {
    pub primary: Primary,
    pub has_errors: bool,
    pub has_meta: bool,
    /// Whether the document carries related resources beside its data.
    pub has_related: bool,
}

#[derive(Clone, Copy, Debug, PartialEq, Eq, Structural)]
pub enum DocumentError {
    /// Related resources without primary data.
    RelatedWithoutData,
    /// None of data, errors or meta.
    MissingContent,
    /// An error document where a resource was expected.
    ContainsErrors,
    /// A list where one resource was expected.
    TooManyResources,
    /// No resource where one was expected.
    MissingData,
}

/// The verdict on a document that should carry exactly one resource.
pub open spec fn single_resource_verdict(d: DocumentOutline) -> Result<(), DocumentError> {
    if d.has_related && d.primary == Primary::Absent {
        Err(DocumentError::RelatedWithoutData)
    } else if d.primary == Primary::Absent && !d.has_errors && !d.has_meta {
        Err(DocumentError::MissingContent)
    } else if d.has_errors {
        Err(DocumentError::ContainsErrors)
    } else {
        match d.primary {
            Primary::Single => Ok(()),
            Primary::Many => Err(DocumentError::TooManyResources),
            _ => Err(DocumentError::MissingData),
        }
    }
}

/// Checks that a request document carries exactly one resource: a
/// malformed document first, then an error document, then the data.
pub fn check_single_resource(d: DocumentOutline) -> (r: Result<(), DocumentError>)
    ensures
        r == single_resource_verdict(d),
{
    if d.has_related && d.primary == Primary::Absent {
        Err(DocumentError::RelatedWithoutData)
    } else if d.primary == Primary::Absent && !d.has_errors && !d.has_meta {
        Err(DocumentError::MissingContent)
    } else if d.has_errors {
        Err(DocumentError::ContainsErrors)
    } else {
        match d.primary {
            Primary::Single => Ok(()),
            Primary::Many => Err(DocumentError::TooManyResources),
            _ => Err(DocumentError::MissingData),
        }
    }
}

/// A resource's identity: its id and its type.
pub open spec fn same_key(a: (Seq<char>, Seq<char>), b: (Seq<char>, Seq<char>)) -> bool {
    a.0 == b.0 && a.1 == b.1
}

/// Whether the resource at `i` is the first with its identity.
pub open spec fn first_of_key(keys: Seq<(Seq<char>, Seq<char>)>, i: int) -> bool {
    forall|j: int| 0 <= j < i ==> !same_key(#[trigger] keys[j], keys[i])
}

/// The positions of the first resource of each identity, in order.
pub open spec fn first_positions(keys: Seq<(Seq<char>, Seq<char>)>, n: int) -> Seq<usize>
    decreases n,
{
    if n <= 0 {
        Seq::empty()
    } else if first_of_key(keys, n - 1) {
        first_positions(keys, n - 1).push((n - 1) as usize)
    } else {
        first_positions(keys, n - 1)
    }
}

/// The positions of the related resources to keep: the first of each
/// (id, type), in their order.
pub fn first_occurrences(keys: &Vec<(String, String)>) -> (r: Vec<usize>)
    ensures
        r@ == first_positions(
            keys@.map_values(|k: (String, String)| (k.0@, k.1@)),
            keys@.len() as int,
        ),
{
    let ghost ks = keys@.map_values(|k: (String, String)| (k.0@, k.1@));
    let mut r: Vec<usize> = Vec::new();
    let mut i: usize = 0;
    while i < keys.len()
        invariant
            i <= keys@.len(),
            ks == keys@.map_values(|k: (String, String)| (k.0@, k.1@)),
            r@ == first_positions(ks, i as int),
        decreases keys@.len() - i,
    {
        let mut seen = false;
        let mut j: usize = 0;
        while j < i
            invariant
                j <= i < keys@.len(),
                ks == keys@.map_values(|k: (String, String)| (k.0@, k.1@)),
                seen == exists|k: int| 0 <= k < j && same_key(#[trigger] ks[k], ks[i as int]),
            decreases i - j,
        {
            let same = keys[j].0 == keys[i].0 && keys[j].1 == keys[i].1;
            proof {
                assert(ks[j as int] == (keys@[j as int].0@, keys@[j as int].1@));
                assert(ks[i as int] == (keys@[i as int].0@, keys@[i as int].1@));
                assert(same == same_key(ks[j as int], ks[i as int]));
                let now = exists|k: int| 0 <= k < j + 1 && same_key(#[trigger] ks[k], ks[i as int]);
                if same {
                    assert(now);
                } else if now {
                    let k = choose|k: int| 0 <= k < j + 1 && same_key(#[trigger] ks[k], ks[i as int]);
                    assert(k < j);
                }
            }
            if same {
                seen = true;
            }
            j = j + 1;
        }
        if !seen {
            r.push(i);
        }
        i = i + 1;
    }
    r
}

} // verus!
