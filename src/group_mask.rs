//! A fixed-width bitset over mask-group ids.
use vstd::prelude::*;

verus! {

/// How many mask groups a [`GroupMask`] can name.
pub const MASK_WIDTH: usize = 64;

/// Whether bit `g` of `bits` is set.
pub open spec fn bit_set(bits: u64, g: u64) -> bool {
    (bits >> g) & 1u64 == 1u64
}

/// A set of mask-group ids below [`MASK_WIDTH`], one bit per group.
#[derive(Clone, Copy, Debug, PartialEq, Eq, Structural)]
pub struct GroupMask {
    pub bits: u64,
}

impl View for GroupMask {
    type V = Set<nat>;

    open spec fn view(&self) -> Set<nat> {
        Set::new(|g: nat| g < 64 && bit_set(self.bits, g as u64))
    }
}

impl GroupMask {
    /// The mask of no group.
    pub fn empty() -> (m: GroupMask)
        ensures
            m@ == Set::<nat>::empty(),
    {
        let m = GroupMask { bits: 0 };
        assert forall|g: u64| g < 64 implies !bit_set(0, g) by {
            assert((0u64 >> g) & 1u64 == 0u64) by (bit_vector);
        }
        assert(m@ =~= Set::<nat>::empty()) by {
            assert forall|g: nat| !m@.contains(g) by {
                if g < 64 {
                    assert(!bit_set(0, g as u64));
                }
            }
        }
        m
    }

    /// The mask of the groups `0..count`.
    pub fn first_groups(count: usize) -> (m: GroupMask)
        requires
            count <= MASK_WIDTH,
        ensures
            m@ == Set::new(|g: nat| g < count),
    {
        let c = count as u64;
        let bits: u64 = if c == 64 {
            u64::MAX
        } else {
            assert(c < 64 ==> (1u64 << c) >= 1u64) by (bit_vector);
            (1u64 << c) - 1
        };
        let m = GroupMask { bits };
        assert forall|g: u64| g < 64 implies (bit_set(bits, g) <==> g < c) by {
            if c == 64 {
                assert(((0xffff_ffff_ffff_ffffu64 >> g) & 1u64 == 1u64) <==> g < 64)
                    by (bit_vector);
            } else {
                assert(c < 64 ==> (bits == (1u64 << c) - 1 ==> (((bits >> g) & 1u64 == 1u64)
                    <==> g < c))) by (bit_vector)
                    requires
                        g < 64,
                ;
            }
        }
        assert(m@ =~= Set::new(|g: nat| g < count)) by {
            assert forall|g: nat| m@.contains(g) <==> g < count by {
                if g < 64 {
                    assert(bit_set(bits, g as u64) <==> (g as u64) < c);
                }
            }
        }
        m
    }

    /// Whether group `g` is in the mask.
    pub fn contains(&self, g: usize) -> (r: bool)
        requires
            g < MASK_WIDTH,
        ensures
            r == self@.contains(g as nat),
    {
        let x = g as u64;
        (self.bits >> x) & 1u64 == 1u64
    }

    /// The mask with group `g` added.
    pub fn with_group(&self, g: usize) -> (m: GroupMask)
        requires
            g < MASK_WIDTH,
        ensures
            m@ == self@.insert(g as nat),
    {
        let x = g as u64;
        let b = self.bits;
        let bits = b | (1u64 << x);
        assert forall|h: u64| h < 64 implies (bit_set(bits, h) <==> (bit_set(b, h) || h == x)) by {
            assert(x < 64 ==> (bits == b | (1u64 << x)) ==> ((((bits >> h) & 1u64 == 1u64)
                <==> (((b >> h) & 1u64 == 1u64) || h == x)))) by (bit_vector)
                requires
                    h < 64,
            ;
        }
        let m = GroupMask { bits };
        assert(m@ =~= self@.insert(g as nat)) by {
            assert forall|h: nat| m@.contains(h) <==> self@.insert(g as nat).contains(h) by {
                if h < 64 {
                    assert(bit_set(bits, h as u64) <==> (bit_set(b, h as u64) || h as u64 == x));
                }
            }
        }
        m
    }

    /// Whether the two masks share a group: a clip whose mask is `self`
    /// contributes to a bone whose groups are `other` exactly when they do.
    pub fn overlaps(&self, other: &GroupMask) -> (r: bool)
        ensures
            r == exists|g: nat| self@.contains(g) && other@.contains(g),
    {
        let mut g: usize = 0;
        while g < MASK_WIDTH
            invariant
                g <= MASK_WIDTH,
                forall|h: nat| h < g ==> !(self@.contains(h) && other@.contains(h)),
            decreases MASK_WIDTH - g,
        {
            if self.contains(g) && other.contains(g) {
                return true;
            }
            g = g + 1;
        }
        assert forall|h: nat| !(self@.contains(h) && other@.contains(h)) by {
            if h >= 64 {
                assert(!self@.contains(h));
            }
        }
        false
    }

    /// The bits of the groups among `0..count` that are not in the mask: the
    /// form in which an animation graph lists the groups a clip must leave
    /// alone.
    pub fn excluded_bits(&self, count: usize) -> (r: u64)
        requires
            count <= MASK_WIDTH,
        ensures
            forall|g: u64| g < 64 ==> (bit_set(r, g) <==> (g < count && !self@.contains(g as nat))),
    {
        let all = GroupMask::first_groups(count);
        let b = self.bits;
        let a = all.bits;
        let r = a & !b;
        assert forall|g: u64| g < 64 implies (bit_set(r, g) <==> (bit_set(a, g) && !bit_set(b, g))) by {
            assert(r == a & !b ==> (((r >> g) & 1u64 == 1u64) <==> (((a >> g) & 1u64 == 1u64)
                && !((b >> g) & 1u64 == 1u64)))) by (bit_vector)
                requires
                    g < 64,
            ;
        }
        assert forall|g: u64| g < 64 implies (bit_set(a, g) <==> g < count) by {
            assert(all@.contains(g as nat) <==> (g as nat) < count);
        }
        r
    }
}

} // verus!
