use vstd::prelude::*;

use crate::geometry::Vec3Bits;
use crate::tokens::{all_digits, ascii_chars, ascii_string, digits_value, int_literal_value};

verus! {

/// The accumulating mesh: 3D vertices (float bit patterns) and a flat index
/// list in which every four consecutive entries form one quad.
#[derive(Debug)]
pub struct Mesh {
    pub verts: Vec<Vec3Bits>,
    pub indices: Vec<usize>,
}

/// Every index refers to a vertex.
pub open spec fn mesh_wf(m: Mesh) -> bool {
    forall|i: int| 0 <= i < m.indices@.len() ==> (#[trigger] m.indices@[i]) < m.verts@.len()
}

impl Default for Mesh {
    /// The empty mesh.
    fn default() -> (r: Self)
        ensures
            r.verts@ == Seq::<Vec3Bits>::empty(),
            r.indices@ == Seq::<usize>::empty(),
    {
        Mesh { verts: Vec::new(), indices: Vec::new() }
    }
}

/// The four indices of the lateral quad `i` between the ring starting at
/// `base` and the ring `n` places later: it joins vertex `i` and its ring
/// successor to their counterparts in the next ring.
pub open spec fn quad_for(base: int, n: int, i: int) -> Seq<usize> {
    seq![
        (base + i) as usize,
        (base + (i + 1) % n) as usize,
        (base + (i + 1) % n + n) as usize,
        (base + i + n) as usize,
    ]
}

/// The quads `0 .. count` of the strip.
pub open spec fn quads_upto(base: int, n: int, count: int) -> Seq<usize>
    decreases count,
{
    if count <= 0 {
        Seq::empty()
    } else {
        quads_upto(base, n, count - 1) + quad_for(base, n, count - 1)
    }
}

/// The whole lateral strip between two rings of `n` vertices.
pub open spec fn quad_indices(base: int, n: int) -> Seq<usize> {
    quads_upto(base, n, n)
}

impl Mesh {
    /// Appends one transformed ring; unless the mesh was empty, also emits
    /// the lateral quads that join it to the `disk.len()` vertices that
    /// precede it.
    pub fn add_disk(&mut self, disk: &Vec<Vec3Bits>)
        requires
            disk@.len() <= old(self).verts@.len(),
            old(self).verts@.len() + disk@.len() <= usize::MAX,
        ensures
            final(self).verts@ == old(self).verts@ + disk@,
            final(self).indices@ == old(self).indices@ + (if old(self).verts@.len() > 0 {
                quad_indices(old(self).verts@.len() - disk@.len(), disk@.len() as int)
            } else {
                Seq::<usize>::empty()
            }),
            mesh_wf(*old(self)) ==> mesh_wf(*final(self)),
    {
        let ghost verts0 = self.verts@;
        let ghost indices0 = self.indices@;
        let disk_size = disk.len();
        let new = self.verts.len() == 0;
        let start_idx = self.verts.len() - disk_size;
        let mut i: usize = 0;
        while i < disk_size
            invariant
                0 <= i <= disk_size == disk@.len(),
                self.verts@ =~= verts0 + disk@.subrange(0, i as int),
                self.indices@ == indices0,
            decreases disk_size - i,
        {
            self.verts.push(disk[i]);
            proof {
                assert(verts0 + disk@.subrange(0, i + 1 as int) =~= (verts0 + disk@.subrange(
                    0,
                    i as int,
                )).push(disk@[i as int]));
            }
            i = i + 1;
        }
        proof {
            assert(disk@.subrange(0, disk_size as int) =~= disk@);
            assert(self.verts@ =~= verts0 + disk@);
        }
        if !new {
            let mut idx: usize = 0;
            proof {
                assert(indices0 + quads_upto(start_idx as int, disk_size as int, 0) =~= indices0);
            }
            while idx < disk_size
                invariant
                    0 <= idx <= disk_size,
                    disk_size == disk@.len(),
                    start_idx + disk_size + disk_size <= usize::MAX,
                    start_idx as int == verts0.len() - disk_size,
                    verts0.len() >= disk_size,
                    self.verts@ == verts0 + disk@,
                    self.indices@ =~= indices0 + quads_upto(
                        start_idx as int,
                        disk_size as int,
                        idx as int,
                    ),
                    forall|j: int|
                        indices0.len() <= j < self.indices@.len() ==> (#[trigger] self.indices@[j])
                            < self.verts@.len(),
                decreases disk_size - idx,
            {
                let idx1 = idx + start_idx;
                let idx2 = (idx + 1) % disk_size + start_idx;
                let idx3 = idx2 + disk_size;
                let idx4 = idx1 + disk_size;
                let ghost before = self.indices@;
                self.indices.push(idx1);
                self.indices.push(idx2);
                self.indices.push(idx3);
                self.indices.push(idx4);
                proof {
                    assert(quads_upto(start_idx as int, disk_size as int, idx + 1 as int)
                        =~= quads_upto(start_idx as int, disk_size as int, idx as int) + quad_for(
                        start_idx as int,
                        disk_size as int,
                        idx as int,
                    ));
                    assert(self.indices@ =~= before + quad_for(
                        start_idx as int,
                        disk_size as int,
                        idx as int,
                    ));
                }
                idx = idx + 1;
            }
        }
    }

    /// Appends the previous transformed ring and the new one, stitching them
    /// with one quad per vertex of the new ring.
    pub fn add_loop(&mut self, start_disk: &Vec<Vec3Bits>, end_disk: &Vec<Vec3Bits>)
        requires
            end_disk@.len() <= old(self).verts@.len() + start_disk@.len(),
            old(self).verts@.len() + start_disk@.len() + end_disk@.len() <= usize::MAX,
        ensures
            final(self).verts@ == old(self).verts@ + start_disk@ + end_disk@,
            final(self).indices@ == old(self).indices@ + (if old(self).verts@.len()
                + start_disk@.len() > 0 {
                quad_indices(
                    old(self).verts@.len() + start_disk@.len() - end_disk@.len(),
                    end_disk@.len() as int,
                )
            } else {
                Seq::<usize>::empty()
            }),
            mesh_wf(*old(self)) ==> mesh_wf(*final(self)),
    {
        let ghost verts0 = self.verts@;
        let ghost indices0 = self.indices@;
        let n = start_disk.len();
        let mut i: usize = 0;
        while i < n
            invariant
                0 <= i <= n == start_disk@.len(),
                self.verts@ =~= verts0 + start_disk@.subrange(0, i as int),
                self.indices@ == indices0,
            decreases n - i,
        {
            self.verts.push(start_disk[i]);
            proof {
                assert(verts0 + start_disk@.subrange(0, i + 1 as int) =~= (verts0
                    + start_disk@.subrange(0, i as int)).push(start_disk@[i as int]));
            }
            i = i + 1;
        }
        proof {
            assert(start_disk@.subrange(0, n as int) =~= start_disk@);
            assert(self.verts@ =~= verts0 + start_disk@);
        }
        self.add_disk(end_disk);
        proof {
            assert(self.verts@ =~= verts0 + start_disk@ + end_disk@);
        }
    }
}

// ---------- text output ----------

/// What formatting the single-precision float with these bits to nine
/// fractional digits prints, as bytes. A pure function of the bits.
pub uninterp spec fn decimal9_of(bits: u32) -> Seq<u8>;

/// Relies on the `format!` macro with the `{:.9}` specifier: the value
/// printed with nine fractional digits, which is ASCII text. Reading the
/// float out of a glam vector only fixes its type.
#[verifier::external_body]
fn format_decimal9(bits: u32) -> (r: Vec<u8>)
    ensures
        r@ == decimal9_of(bits),
        forall|i: int| 0 <= i < r@.len() ==> r@[i] < 128,
{
    let v: glam::Vec3 = bytemuck::cast([bits, bits, bits]);
    format!("{:.9}", v.x).into_bytes()
}

/// The decimal digits of a nonnegative integer, most significant first.
pub open spec fn dec_digits(n: int) -> Seq<u8>
    decreases n,
{
    if n < 10 {
        seq![(0x30 + n) as u8]
    } else {
        dec_digits(n / 10) + seq![(0x30 + n % 10) as u8]
    }
}

/// Printing an index and reading it back: the digit run of a nonnegative
/// integer is all digits and decodes, as the tokenizer's integer literals
/// do, to the integer itself.
pub proof fn lemma_dec_digits_round_trip(n: int)
    requires
        n >= 0,
    ensures
        dec_digits(n).len() >= 1,
        all_digits(dec_digits(n)),
        digits_value(dec_digits(n)) == n,
        int_literal_value(dec_digits(n)) == Option::Some(n),
    decreases n,
{
    if n < 10 {
        let s = dec_digits(n);
        assert(s =~= seq![(0x30 + n) as u8]);
        assert(s.drop_last() =~= Seq::<u8>::empty());
        assert(digits_value(Seq::<u8>::empty()) == 0);
        assert(s.last() == (0x30 + n) as u8);
        assert(digits_value(s) == digits_value(s.drop_last()) * 10 + (s.last() - 0x30));
        assert(digits_value(s) == n);
    } else {
        lemma_dec_digits_round_trip(n / 10);
        let s = dec_digits(n);
        let p = dec_digits(n / 10);
        assert(s =~= p + seq![(0x30 + n % 10) as u8]);
        assert(s.drop_last() =~= p);
        assert(s.last() == (0x30 + n % 10) as u8);
        assert(digits_value(s) == digits_value(p) * 10 + (n % 10));
        assert(n / 10 * 10 + n % 10 == n);
        assert(!(s[0] == 0x2B || s[0] == 0x2D));
    }
}

proof fn lemma_dec_digits_ascii(n: int)
    requires
        n >= 0,
    ensures
        forall|i: int| 0 <= i < dec_digits(n).len() ==> dec_digits(n)[i] < 128,
    decreases n,
{
    lemma_dec_digits_round_trip(n);
    assert forall|i: int| 0 <= i < dec_digits(n).len() implies dec_digits(n)[i] < 128 by {
        assert(all_digits(dec_digits(n)));
        assert(crate::tokens::is_digit(dec_digits(n)[i]));
    }
}

fn dec_u64(n: u64) -> (r: Vec<u8>)
    ensures
        r@ == dec_digits(n as int),
    decreases n,
{
    if n < 10 {
        let mut v: Vec<u8> = Vec::new();
        v.push(0x30u8 + (n as u8));
        proof {
            assert(v@ =~= dec_digits(n as int));
        }
        v
    } else {
        let mut v = dec_u64(n / 10);
        v.push(0x30u8 + ((n % 10) as u8));
        proof {
            assert(v@ =~= dec_digits((n as int) / 10) + seq![(0x30 + (n as int) % 10) as u8]);
        }
        v
    }
}

/// One output vertex line: `v x z y` with Y and Z swapped, nine fractional
/// digits each, ending in a newline.
pub open spec fn vert_line(v: Vec3Bits) -> Seq<u8> {
    seq![0x76u8, 0x20u8] + decimal9_of(v.x) + seq![0x20u8] + decimal9_of(v.z) + seq![0x20u8]
        + decimal9_of(v.y) + seq![0x0Au8]
}

/// The first `count` vertex lines.
pub open spec fn vert_lines(verts: Seq<Vec3Bits>, count: int) -> Seq<u8>
    decreases count,
{
    if count <= 0 {
        Seq::empty()
    } else {
        vert_lines(verts, count - 1) + vert_line(verts[count - 1])
    }
}

/// One output face line for quad `j`: `f i1 i4 i3 i2`, each internal index
/// printed one-based and the winding order flipped, ending in a newline.
pub open spec fn face_line(indices: Seq<usize>, j: int) -> Seq<u8> {
    seq![0x66u8, 0x20u8] + dec_digits(indices[4 * j] + 1) + seq![0x20u8] + dec_digits(
        indices[4 * j + 3] + 1,
    ) + seq![0x20u8] + dec_digits(indices[4 * j + 2] + 1) + seq![0x20u8] + dec_digits(
        indices[4 * j + 1] + 1,
    ) + seq![0x0Au8]
}

/// The first `count` face lines.
pub open spec fn face_lines(indices: Seq<usize>, count: int) -> Seq<u8>
    decreases count,
{
    if count <= 0 {
        Seq::empty()
    } else {
        face_lines(indices, count - 1) + face_line(indices, count - 1)
    }
}

/// The whole text output: every vertex line, then one face line per complete
/// group of four indices.
pub open spec fn render_bytes(verts: Seq<Vec3Bits>, indices: Seq<usize>) -> Seq<u8> {
    vert_lines(verts, verts.len() as int) + face_lines(indices, indices.len() as int / 4)
}

/// Output index numbering round-trips: the digit runs printed in the face
/// line of quad `j` are the quad's internal vertex indices plus one, in the
/// flipped order first, fourth, third, second — so vertex `i` appears as
/// `i + 1` wherever a face references it.
pub proof fn lemma_output_indices_one_based(indices: Seq<usize>, j: int)
    requires
        0 <= j,
        4 * j + 3 < indices.len(),
    ensures
        face_line(indices, j) == seq![0x66u8, 0x20u8] + dec_digits(indices[4 * j] + 1) + seq![
            0x20u8,
        ] + dec_digits(indices[4 * j + 3] + 1) + seq![0x20u8] + dec_digits(indices[4 * j + 2] + 1)
            + seq![0x20u8] + dec_digits(indices[4 * j + 1] + 1) + seq![0x0Au8],
        forall|k: int|
            4 * j <= k < 4 * j + 4 ==> digits_value(dec_digits(#[trigger] indices[k] + 1))
                == indices[k] + 1,
{
    assert forall|k: int| 4 * j <= k < 4 * j + 4 implies digits_value(
        dec_digits(#[trigger] indices[k] + 1),
    ) == indices[k] + 1 by {
        lemma_dec_digits_round_trip(indices[k] + 1);
    }
}

fn append_bytes(dst: &mut Vec<u8>, src: &Vec<u8>)
    ensures
        final(dst)@ == old(dst)@ + src@,
{
    let ghost dst0 = dst@;
    let mut i: usize = 0;
    while i < src.len()
        invariant
            0 <= i <= src@.len(),
            dst@ =~= dst0 + src@.subrange(0, i as int),
        decreases src@.len() - i,
    {
        dst.push(src[i]);
        proof {
            assert(dst0 + src@.subrange(0, i + 1 as int) =~= (dst0 + src@.subrange(
                0,
                i as int,
            )).push(src@[i as int]));
        }
        i = i + 1;
    }
    proof {
        assert(src@.subrange(0, src@.len() as int) =~= src@);
        assert(dst@ =~= dst0 + src@);
    }
}

impl Mesh {
    /// The mesh as wavefront-style text: one `v` line per vertex (Y and Z
    /// swapped, nine fractional digits) then one `f` line per quad (indices
    /// one-based, winding flipped).
    pub fn render(&self) -> (r: String)
        requires
            mesh_wf(*self),
        ensures
            r@ == ascii_chars(render_bytes(self.verts@, self.indices@)),
    {
        let mut out: Vec<u8> = Vec::new();
        let mut i: usize = 0;
        while i < self.verts.len()
            invariant
                0 <= i <= self.verts@.len(),
                out@ =~= vert_lines(self.verts@, i as int),
                forall|k: int| 0 <= k < out@.len() ==> (#[trigger] out@[k]) < 128,
            decreases self.verts@.len() - i,
        {
            let v = self.verts[i];
            let ghost before = out@;
            out.push(0x76);
            out.push(0x20);
            let fx = format_decimal9(v.x);
            append_bytes(&mut out, &fx);
            out.push(0x20);
            let fz = format_decimal9(v.z);
            append_bytes(&mut out, &fz);
            out.push(0x20);
            let fy = format_decimal9(v.y);
            append_bytes(&mut out, &fy);
            out.push(0x0A);
            proof {
                assert(out@ =~= before + vert_line(self.verts@[i as int]));
                assert(out@ =~= vert_lines(self.verts@, i + 1 as int));
            }
            i = i + 1;
        }
        let ghost vpart = out@;
        let total: usize = self.indices.len();
        let nverts: usize = self.verts.len();
        let quad_count = total / 4;
        proof {
            assert(vpart + face_lines(self.indices@, 0) =~= vpart);
            assert(4 * (self.indices@.len() as int / 4) <= self.indices@.len()) by (nonlinear_arith);
        }
        let mut j: usize = 0;
        while j < quad_count
            invariant
                0 <= j <= quad_count,
                quad_count == self.indices@.len() / 4,
                4 * quad_count <= self.indices@.len(),
                total == self.indices@.len(),
                nverts == self.verts@.len(),
                mesh_wf(*self),
                vpart == vert_lines(self.verts@, self.verts@.len() as int),
                out@ =~= vpart + face_lines(self.indices@, j as int),
                forall|k: int| 0 <= k < out@.len() ==> (#[trigger] out@[k]) < 128,
            decreases quad_count - j,
        {
            let ghost before = out@;
            proof {
                assert(4 * (j as int) + 3 < total);
            }
            out.push(0x66);
            out.push(0x20);
            let i1 = self.indices[4 * j];
            let i2 = self.indices[4 * j + 1];
            let i3 = self.indices[4 * j + 2];
            let i4 = self.indices[4 * j + 3];
            proof {
                assert(i1 < nverts && i2 < nverts && i3 < nverts && i4 < nverts);
                lemma_dec_digits_ascii(i1 + 1 as int);
                lemma_dec_digits_ascii(i2 + 1 as int);
                lemma_dec_digits_ascii(i3 + 1 as int);
                lemma_dec_digits_ascii(i4 + 1 as int);
            }
            let d1 = dec_u64((i1 as u64) + 1);
            append_bytes(&mut out, &d1);
            out.push(0x20);
            let d4 = dec_u64((i4 as u64) + 1);
            append_bytes(&mut out, &d4);
            out.push(0x20);
            let d3 = dec_u64((i3 as u64) + 1);
            append_bytes(&mut out, &d3);
            out.push(0x20);
            let d2 = dec_u64((i2 as u64) + 1);
            append_bytes(&mut out, &d2);
            out.push(0x0A);
            proof {
                assert(out@ =~= before + face_line(self.indices@, j as int));
                assert(out@ =~= vpart + face_lines(self.indices@, j + 1 as int));
            }
            j = j + 1;
        }
        proof {
            assert(out@ =~= render_bytes(self.verts@, self.indices@));
        }
        ascii_string(out.as_slice())
    }
}

} // verus!
