//! The object identifier value type.

use vstd::prelude::*;

use crate::dotted::{
    count_char, dotted_of, lemma_count_dots, lemma_parse_dotted_of, parse_dotted, push_decimal,
};

verus! {

/// Whether `nodes` has the structure of an object identifier: at least three
/// arcs, a root arc in 0..=2 and a first-level arc in 0..=39.
pub open spec fn arcs_valid(nodes: Seq<u32>) -> bool {
    &&& nodes.len() >= 3
    &&& nodes[0] <= 2
    &&& nodes[1] <= 39
}

/// What reading the arcs of an identifier built from `nodes` yields: the
/// arcs themselves when they are well formed, nothing otherwise.
pub open spec fn access_of(nodes: Seq<u32>) -> Option<Seq<u32>> {
    if arcs_valid(nodes) {
        Some(nodes)
    } else {
        None
    }
}

/// Well-formed arcs read back unchanged: an identifier built from them gives
/// exactly them when accessed.
pub proof fn lemma_access_identity(nodes: Seq<u32>)
    requires
        arcs_valid(nodes),
    ensures
        access_of(nodes) == Some(nodes),
{
}

/// Arcs that are too few, or whose root arc is above 2, or whose first-level
/// arc is above 39, can never be read: access yields nothing.
pub proof fn lemma_access_refused(nodes: Seq<u32>)
    requires
        nodes.len() < 3 || nodes[0] > 2 || nodes[1] > 39,
    ensures
        access_of(nodes) is None,
{
}

/// The text of a well-formed identifier, cut at each `.` and read as numbers,
/// gives back its arcs.
pub proof fn lemma_render_round_trip(nodes: Seq<u32>)
    requires
        arcs_valid(nodes),
    ensures
        parse_dotted(dotted_of(nodes)) == nodes.map_values(|x: u32| x as nat),
{
    lemma_parse_dotted_of(nodes);
}

/// Two well-formed identifiers with the same number of arcs and the same
/// text have the same arcs.
pub proof fn lemma_render_injective(a: Seq<u32>, b: Seq<u32>)
    requires
        arcs_valid(a),
        arcs_valid(b),
        a.len() == b.len(),
        dotted_of(a) == dotted_of(b),
    ensures
        a == b,
{
    lemma_parse_dotted_of(a);
    lemma_parse_dotted_of(b);
    assert forall|i: int| 0 <= i < a.len() implies a[i] == b[i] by {
        assert(a.map_values(|x: u32| x as nat)[i] == b.map_values(|x: u32| x as nat)[i]);
    }
    assert(a =~= b);
}

/// The text of a well-formed identifier holds exactly one `.` fewer than it
/// has arcs.
pub proof fn lemma_render_separators(nodes: Seq<u32>)
    requires
        arcs_valid(nodes),
    ensures
        count_char(dotted_of(nodes), '.') == nodes.len() - 1,
{
    lemma_count_dots(nodes);
}

/// Why the arcs of an identifier cannot be read.
#[derive(Debug, Clone, Copy, PartialEq, Eq, Structural)]
pub enum InvalidIdentifier {
    /// Fewer than three arcs, a root arc above 2, or a first-level arc above 39.
    Malformed,
}

/// Object identifier (OID): a borrowed sequence of arcs and whether that
/// sequence is well formed, decided once when the value is made.
pub struct ObjectIdentifier {
    nodes: &'static [u32],
    is_valid: bool,
}

impl View for ObjectIdentifier {
    type V = Seq<u32>;

    /// The arcs, as given at construction.
    closed spec fn view(&self) -> Seq<u32> {
        self.nodes@
    }
}

impl ObjectIdentifier {
    /// Whether the arcs are well formed, as found at construction.
    pub open spec fn valid(&self) -> bool {
        arcs_valid(self@)
    }

    /// The validity flag always agrees with the arcs.
    #[verifier::type_invariant]
    spec fn wf(&self) -> bool {
        self.is_valid == arcs_valid(self.nodes@)
    }

    /// Makes an identifier over `nodes`. Never fails: whether the arcs are
    /// well formed is recorded, and checked again only when they are read.
    pub fn new(nodes: &'static [u32]) -> (r: Self)
        ensures
            r@ == nodes@,
            r.valid() == arcs_valid(nodes@),
    {
        let mut is_valid = nodes.len() > 2;
        if is_valid {
            if nodes[0] > 2 {
                is_valid = false;
            }
            if nodes[1] > 39 {
                is_valid = false;
            }
        }
        ObjectIdentifier { nodes, is_valid }
    }

    /// Whether the arcs are well formed, that is, whether they may be read.
    pub fn is_valid(&self) -> (r: bool)
        ensures
            r == self.valid(),
    {
        proof {
            use_type_invariant(self);
        }
        self.is_valid
    }

    /// The arcs of a well-formed identifier, unchanged.
    pub fn as_ref(&self) -> (r: &'static [u32])
        requires
            self.valid(),
        ensures
            r@ == self@,
    {
        proof {
            use_type_invariant(self);
        }
        self.nodes
    }

    /// The arcs, or an error when they are not well formed.
    pub fn try_as_ref(&self) -> (r: Result<&'static [u32], InvalidIdentifier>)
        ensures
            r matches Ok(s) ==> access_of(self@) == Some(s@),
            r is Err <==> access_of(self@) is None,
            r matches Err(e) ==> e == InvalidIdentifier::Malformed,
    {
        proof {
            use_type_invariant(self);
        }
        if self.is_valid {
            Ok(self.nodes)
        } else {
            Err(InvalidIdentifier::Malformed)
        }
    }

    /// The dotted-decimal text of a well-formed identifier, such as
    /// `1.2.840.10045.3.1.7`.
    pub fn to_string(&self) -> (r: String)
        requires
            self.valid(),
        ensures
            r@ == dotted_of(self@),
    {
        let nodes = self.as_ref();
        let mut out = String::new();
        let mut i: usize = 0;
        while i < nodes.len()
            invariant
                i <= nodes@.len(),
                out@ == dotted_of(nodes@.subrange(0, i as int)),
            decreases nodes@.len() - i,
        {
            proof {
                reveal_strlit(".");
                let next = nodes@.subrange(0, i + 1);
                assert(next.drop_last() =~= nodes@.subrange(0, i as int));
                assert(next.last() == nodes@[i as int]);
            }
            if i > 0 {
                out.append(".");
            }
            push_decimal(&mut out, nodes[i]);
            i = i + 1;
        }
        assert(nodes@.subrange(0, i as int) =~= nodes@);
        out
    }
}

} // verus!
