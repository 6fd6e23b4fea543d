//! Surface: the part of the log the model sees. Compaction never deletes; it appends a
//! `replace(start, end)` that shadows a range of nodes, so replay stays intact and only the
//! projection changes. `start`/`end` are positions in the node list, not seqs.

use vstd::prelude::*;

use crate::session::error::SessionError;

verus! {

/// Either a new node at the end, or a shadow over an existing range.
#[derive(Clone, Copy, Debug, PartialEq, Eq)]
pub enum SurfaceOp {
    Append,
    /// Half-open `start..end`; `start == end` is an insert.
    Replace { start: usize, end: usize },
}

/// Node order exactly as the model sees it.
#[derive(Clone, Debug)]
pub struct Surface {
    nodes: Vec<u64>,
    /// Bumped on every `replace`.
    generation: u64,
}

impl Default for Surface {
    fn default() -> (s: Surface)
        ensures
            s.node_seq() == Seq::<u64>::empty(),
            s.gen() == 0,
    {
        Surface::new()
    }
}

/// The nodes after `seq` replaces `start..end`.
pub open spec fn spliced(nodes: Seq<u64>, start: int, end: int, seq: u64) -> Seq<u64> {
    nodes.subrange(0, start) + seq![seq] + nodes.subrange(end, nodes.len() as int)
}

/// The shadowed nodes that `cited` does not name.
pub open spec fn uncited(shadowed: Seq<u64>, cited: Seq<u64>) -> Seq<u64> {
    shadowed.filter(|s: u64| !cited.contains(s))
}

/// What `cited` means when no list is given.
pub open spec fn cited_of(sources: Option<Seq<u64>>) -> Seq<u64> {
    match sources {
        Some(c) => c,
        None => Seq::empty(),
    }
}

/// The surface model: node list and generation, or why a step is refused.
pub enum SurfaceStep {
    Next(Seq<u64>, nat),
    OutOfBounds,
    Uncited(Seq<u64>),
}

/// One surface event folded into the model.
pub open spec fn step(nodes: Seq<u64>, generation: nat, seq: u64, op: SurfaceOp, sources: Option<
    Seq<u64>,
>) -> SurfaceStep {
    match op {
        SurfaceOp::Append => SurfaceStep::Next(nodes.push(seq), generation),
        SurfaceOp::Replace { start, end } => if start > end || end > nodes.len() {
            SurfaceStep::OutOfBounds
        } else if uncited(nodes.subrange(start as int, end as int), cited_of(sources)).len() > 0 {
            SurfaceStep::Uncited(uncited(nodes.subrange(start as int, end as int), cited_of(sources)))
        } else {
            SurfaceStep::Next(spliced(nodes, start as int, end as int, seq), generation + 1)
        },
    }
}

impl Surface {
    pub closed spec fn node_seq(&self) -> Seq<u64> {
        self.nodes@
    }

    pub closed spec fn gen(&self) -> nat {
        self.generation as nat
    }

    /// An empty surface.
    pub fn new() -> (s: Surface)
        ensures
            s.node_seq() == Seq::<u64>::empty(),
            s.gen() == 0,
    {
        Surface { nodes: Vec::new(), generation: 0 }
    }

    pub fn nodes(&self) -> (r: &[u64])
        ensures
            r@ == self.node_seq(),
    {
        self.nodes.as_slice()
    }

    pub fn generation(&self) -> (r: u64)
        ensures
            r == self.gen(),
    {
        self.generation
    }

    pub fn len(&self) -> (r: usize)
        ensures
            r == self.node_seq().len(),
    {
        self.nodes.len()
    }

    pub fn is_empty(&self) -> (r: bool)
        ensures
            r == (self.node_seq().len() == 0),
    {
        self.nodes.len() == 0
    }

    /// Seqs of the nodes a `replace(start, end)` would shadow.
    pub fn shadowed(&self, start: usize, end: usize) -> (r: Result<Vec<u64>, SessionError>)
        ensures
            start <= end <= self.node_seq().len() ==> (r matches Ok(v) && v@
                == self.node_seq().subrange(start as int, end as int)),
            !(start <= end <= self.node_seq().len()) ==> (r matches Err(
                SessionError::SurfaceRangeOutOfBounds { start: s, end: e, len: l },
            ) && s == start && e == end && l == self.node_seq().len()),
    {
        if start > end || end > self.nodes.len() {
            return Err(SessionError::SurfaceRangeOutOfBounds { start, end, len: self.nodes.len() });
        }
        let mut out: Vec<u64> = Vec::new();
        let mut i = start;
        while i < end
            invariant
                start <= i <= end <= self.nodes.len(),
                out@ == self.nodes@.subrange(start as int, i as int),
            decreases end - i,
        {
            out.push(self.nodes[i]);
            i = i + 1;
            assert(out@ =~= self.nodes@.subrange(start as int, i as int));
        }
        Ok(out)
    }

    /// Fold a surface event into the node list. `sources` must cite every shadowed node and
    /// may cite more; a refused step leaves the surface untouched.
    pub fn apply(&mut self, seq: u64, op: SurfaceOp, sources: Option<&[u64]>) -> (r: Result<
        (),
        SessionError,
    >)
        requires
            op matches SurfaceOp::Replace { .. } ==> old(self).gen() < u64::MAX,
        ensures
            match step(
                old(self).node_seq(),
                old(self).gen(),
                seq,
                op,
                match sources {
                    Some(c) => Some(c@),
                    None => None,
                },
            ) {
                SurfaceStep::Next(nodes, generation) => r is Ok && final(self).node_seq() == nodes
                    && final(self).gen() == generation,
                SurfaceStep::OutOfBounds => final(self).node_seq() == old(self).node_seq()
                    && final(self).gen() == old(self).gen() && match op {
                    SurfaceOp::Replace { start, end } => (r matches Err(
                        SessionError::SurfaceRangeOutOfBounds { start: s, end: e, len: l },
                    ) && s == start && e == end && l == old(self).node_seq().len()),
                    SurfaceOp::Append => false,
                },
                SurfaceStep::Uncited(missing) => final(self).node_seq() == old(self).node_seq()
                    && final(self).gen() == old(self).gen() && (r matches Err(
                    SessionError::UncitedShadow { missing: m },
                ) && m@ == missing),
            },
    {
        match op {
            SurfaceOp::Append => {
                self.nodes.push(seq);
                Ok(())
            },
            SurfaceOp::Replace { start, end } => {
                let shadowed = match self.shadowed(start, end) {
                    Ok(v) => v,
                    Err(e) => return Err(e),
                };
                let ghost cited = cited_of(
                    match sources {
                        Some(c) => Some(c@),
                        None => None,
                    },
                );
                let mut missing: Vec<u64> = Vec::new();
                let mut i: usize = 0;
                while i < shadowed.len()
                    invariant
                        i <= shadowed.len(),
                        cited == cited_of(
                            match sources {
                                Some(c) => Some(c@),
                                None => None,
                            },
                        ),
                        missing@ == uncited(shadowed@.take(i as int), cited),
                    decreases shadowed.len() - i,
                {
                    let s = shadowed[i];
                    let found = match sources {
                        Some(c) => contains_u64(c, s),
                        None => false,
                    };
                    proof {
                        let f = |x: u64| !cited.contains(x);
                        assert(shadowed@.take(i + 1) =~= shadowed@.take(i as int).push(s));
                        shadowed@.take(i as int).lemma_filter_push(s, f);
                    }
                    if !found {
                        missing.push(s);
                    }
                    i = i + 1;
                }
                proof {
                    assert(shadowed@.take(shadowed.len() as int) =~= shadowed@);
                }
                if missing.len() > 0 {
                    return Err(SessionError::UncitedShadow { missing });
                }
                let mut nodes: Vec<u64> = Vec::new();
                let mut k: usize = 0;
                while k < start
                    invariant
                        k <= start <= end <= self.nodes.len(),
                        nodes@ == self.nodes@.subrange(0, k as int),
                    decreases start - k,
                {
                    nodes.push(self.nodes[k]);
                    k = k + 1;
                    assert(nodes@ =~= self.nodes@.subrange(0, k as int));
                }
                nodes.push(seq);
                let mut k = end;
                let ghost head = nodes@;
                while k < self.nodes.len()
                    invariant
                        start <= end <= k <= self.nodes.len(),
                        head == self.nodes@.subrange(0, start as int).push(seq),
                        nodes@ == head + self.nodes@.subrange(end as int, k as int),
                    decreases self.nodes.len() - k,
                {
                    nodes.push(self.nodes[k]);
                    k = k + 1;
                    assert(nodes@ =~= head + self.nodes@.subrange(end as int, k as int));
                }
                assert(nodes@ =~= spliced(self.nodes@, start as int, end as int, seq));
                self.nodes = nodes;
                self.generation = self.generation + 1;
                Ok(())
            },
        }
    }
}

/// Whether `v` holds `x`.
pub fn contains_u64(v: &[u64], x: u64) -> (r: bool)
    ensures
        r == v@.contains(x),
{
    let mut i: usize = 0;
    while i < v.len()
        invariant
            i <= v.len(),
            forall|j: int| 0 <= j < i ==> v@[j] != x,
        decreases v.len() - i,
    {
        if v[i] == x {
            assert(v@[i as int] == x);
            return true;
        }
        i = i + 1;
    }
    false
}

} // verus!
