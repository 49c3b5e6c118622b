//! The label's per-character font rotation: before each character the index
//! into the font list advances by one, wrapping to the start after the last
//! entry; a character is drawn upper-cased when the new index is even.
use vstd::prelude::*;

verus! {

/// How one character of the label is drawn.
#[derive(Clone, Copy, PartialEq, Eq, Structural, Debug)]
pub struct Glyph {
    /// Index into the font list.
    pub font: usize,
    /// Whether the character is drawn upper-cased.
    pub upper: bool,
}

/// The rotating index into a font list of `font_count` entries.
#[derive(Clone, Copy, PartialEq, Eq, Structural, Debug)]
pub struct FontRotation {
    pub index: usize,
    pub font_count: usize,
}

pub open spec fn next_index(index: nat, n: nat) -> nat {
    if index + 1 >= n {
        0
    } else {
        index + 1
    }
}

pub open spec fn glyph_at(index: nat) -> Glyph {
    Glyph { font: index as usize, upper: index % 2 == 0 }
}

/// The glyphs of `len` characters drawn from rotation index `start`.
pub open spec fn rotation_plan(len: nat, start: nat, n: nat) -> Seq<Glyph>
    decreases len,
{
    if len == 0 {
        seq![]
    } else {
        let k = next_index(start, n);
        seq![glyph_at(k)].add(rotation_plan((len - 1) as nat, k, n))
    }
}

/// The rotation index after `len` characters drawn from `start`.
pub open spec fn rotation_end(len: nat, start: nat, n: nat) -> nat
    decreases len,
{
    if len == 0 {
        start
    } else {
        rotation_end((len - 1) as nat, next_index(start, n), n)
    }
}

impl FontRotation {
    pub open spec fn wf(&self) -> bool {
        self.font_count >= 1 && self.index < self.font_count
    }

    /// A rotation over `font_count` fonts starting at index 0.
    pub fn new(font_count: usize) -> (r: Self)
        requires
            font_count >= 1,
        ensures
            r.wf(),
            r.index == 0,
            r.font_count == font_count,
    {
        FontRotation { index: 0, font_count }
    }

    /// Advances the index for one character and says how to draw it.
    pub fn advance(&mut self) -> (g: Glyph)
        requires
            old(self).wf(),
        ensures
            final(self).wf(),
            final(self).font_count == old(self).font_count,
            final(self).index == next_index(old(self).index as nat, old(self).font_count as nat),
            g == glyph_at(final(self).index as nat),
    {
        if self.index + 1 == self.font_count {
            self.index = 0;
        } else {
            self.index = self.index + 1;
        }
        Glyph { font: self.index, upper: self.index % 2 == 0 }
    }

    /// The glyphs for a label of `len` characters, advancing the rotation.
    pub fn plan(&mut self, len: usize) -> (r: Vec<Glyph>)
        requires
            old(self).wf(),
        ensures
            final(self).wf(),
            final(self).font_count == old(self).font_count,
            r@ == rotation_plan(len as nat, old(self).index as nat, old(self).font_count as nat),
            final(self).index == rotation_end(len as nat, old(self).index as nat, old(self).font_count as nat),
    {
        let ghost start = self.index as nat;
        let ghost n = self.font_count as nat;
        let mut r: Vec<Glyph> = Vec::new();
        let mut i: usize = 0;
        while i < len
            invariant
                self.wf(),
                self.font_count == n,
                i <= len,
                r@ + rotation_plan((len - i) as nat, self.index as nat, n) == rotation_plan(len as nat, start, n),
                rotation_end((len - i) as nat, self.index as nat, n) == rotation_end(len as nat, start, n),
            decreases len - i,
        {
            let ghost r0 = r@;
            let ghost k0 = self.index as nat;
            let g = self.advance();
            r.push(g);
            proof {
                let tail = rotation_plan((len - i - 1) as nat, self.index as nat, n);
                assert(rotation_plan((len - i) as nat, k0, n) == seq![g].add(tail));
                assert(r@ + tail =~= r0 + seq![g].add(tail));
            }
            i = i + 1;
        }
        proof {
            assert(r@ + Seq::<Glyph>::empty() =~= r@);
        }
        r
    }
}

/// Font rotation idempotence: drawing a label of `len` characters twice from
/// the same rotation index gives the same glyphs both times. Glyph `k` uses
/// font `(start + k + 1) mod n`, upper-cased exactly when that index is even.
pub proof fn lemma_rotation_idempotent(len: nat, start: nat, n: nat)
    requires
        n >= 1,
        start < n,
    ensures
        rotation_plan(len, start, n).len() == len,
        forall|k: int| 0 <= k < len ==> #[trigger] rotation_plan(len, start, n)[k] == glyph_at(
            ((start as int + k + 1) % (n as int)) as nat,
        ),
        rotation_end(len, start, n) == (start as int + len) % (n as int),
    decreases len,
{
    if len > 0 {
        let k1 = next_index(start, n);
        assert(k1 == (start as int + 1) % (n as int)) by {
            if start + 1 < n {
                vstd::arithmetic::div_mod::lemma_small_mod((start + 1) as nat, n);
            } else {
                vstd::arithmetic::div_mod::lemma_mod_self_0(n as int);
            }
        }
        lemma_rotation_idempotent((len - 1) as nat, k1, n);
        let p = rotation_plan(len, start, n);
        let tail = rotation_plan((len - 1) as nat, k1, n);
        assert forall|k: int| 0 <= k < len implies #[trigger] p[k] == glyph_at(((start as int + k + 1) % (n as int)) as nat) by {
            if k > 0 {
                assert(p[k] == tail[k - 1]);
                lemma_mod_shift(start as int, k, n as int);
            }
        }
        lemma_mod_shift(start as int, len as int - 1, n as int);
    } else {
        vstd::arithmetic::div_mod::lemma_small_mod(start, n);
    }
}

proof fn lemma_mod_shift(a: int, k: int, n: int)
    requires
        n >= 1,
        a >= 0,
        k >= 0,
    ensures
        ((a + 1) % n + k) % n == (a + k + 1) % n,
{
    vstd::arithmetic::div_mod::lemma_add_mod_noop_right(k, a + 1, n);
    assert((a + 1) % n + k == k + (a + 1) % n);
    assert(k + (a + 1) == a + k + 1);
}

} // verus!
