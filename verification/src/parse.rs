use vstd::prelude::*;

use crate::app_error::AppError;
use crate::cooked::{dfs_list, no_row_visited, node_built, spec_from_raw};
use crate::geometry::Vec3Bits;
use crate::model::{model_wf, Model, ModelConfig};
use crate::raw;
use crate::tokens::{parse_lines, tokens_of, views_of, LineItem, LineItemView};

verus! {

/// One cross-section vertex: a 3D position (as float bit patterns) and an
/// integer tag.
pub type DiskVertex = (Vec3Bits, i32);

/// One cross-section ring: an ordered list of vertices.
pub type Disk = Vec<DiskVertex>;

/// The views of a list of disks.
pub open spec fn disks_view(s: Seq<Disk>) -> Seq<Seq<DiskVertex>> {
    s.map_values(|d: Disk| d@)
}

/// The view of an optional expected size.
pub open spec fn size_view(e: Option<usize>) -> Option<int> {
    match e {
        Option::Some(n) => Option::Some(n as int),
        Option::None => Option::None,
    }
}

pub open spec fn float_at(items: Seq<LineItemView>, i: int) -> bool {
    0 <= i < items.len() && items[i] is Float
}

pub open spec fn int_at(items: Seq<LineItemView>, i: int) -> bool {
    0 <= i < items.len() && items[i] is Int
}

// ---------- one vertex ----------

/// A vertex is three float tokens and one integer token in a row.
pub open spec fn spec_parse_vert(items: Seq<LineItemView>, start: int) -> Option<(DiskVertex, int)> {
    if float_at(items, start) && float_at(items, start + 1) && float_at(items, start + 2)
        && int_at(items, start + 3) {
        Option::Some(
            (
                (
                    Vec3Bits {
                        x: items[start]->Float_0,
                        y: items[start + 1]->Float_0,
                        z: items[start + 2]->Float_0,
                    },
                    items[start + 3]->Int_0,
                ),
                start + 4,
            ),
        )
    } else {
        Option::None
    }
}

fn parse_vert(items: &[LineItem], start: usize) -> (r: Option<(DiskVertex, usize)>)
    ensures
        match r {
            Option::Some((v, next)) => spec_parse_vert(views_of(items@), start as int)
                == Option::Some((v, next as int)),
            Option::None => spec_parse_vert(views_of(items@), start as int) is None,
        },
{
    let mut idx = start;
    let x = if let Some(LineItem::Float(f)) = items.get(idx) {
        *f
    } else {
        return None;
    };
    idx = idx + 1;
    let y = if let Some(LineItem::Float(f)) = items.get(idx) {
        *f
    } else {
        return None;
    };
    idx = idx + 1;
    let z = if let Some(LineItem::Float(f)) = items.get(idx) {
        *f
    } else {
        return None;
    };
    idx = idx + 1;
    let tag = if let Some(LineItem::Int(i)) = items.get(idx) {
        *i
    } else {
        return None;
    };
    idx = idx + 1;
    Some(((Vec3Bits { x, y, z }, tag), idx))
}

// ---------- one disk ----------

/// A run of `count` vertices.
pub open spec fn spec_parse_verts(items: Seq<LineItemView>, start: int, count: int) -> Option<
    (Seq<DiskVertex>, int),
>
    decreases count,
{
    if count <= 0 {
        Option::Some((Seq::empty(), start))
    } else {
        match spec_parse_vert(items, start) {
            Option::Some((v, next)) => match spec_parse_verts(items, next, count - 1) {
                Option::Some((rest, end)) => Option::Some((seq![v] + rest, end)),
                Option::None => Option::None,
            },
            Option::None => Option::None,
        }
    }
}

/// A disk is a positive vertex count (matching the expected size, when one is
/// given) followed by that many vertices.
pub open spec fn spec_parse_disk(
    items: Seq<LineItemView>,
    expected: Option<int>,
    start: int,
) -> Option<(Seq<DiskVertex>, int)> {
    if int_at(items, start) {
        let ct = items[start]->Int_0 as int;
        if ct < 1 {
            Option::None
        } else if expected is Some && expected != Option::Some(ct) {
            Option::None
        } else {
            spec_parse_verts(items, start + 1, ct)
        }
    } else {
        Option::None
    }
}

proof fn lemma_verts_bounds(items: Seq<LineItemView>, start: int, count: int)
    ensures
        match spec_parse_verts(items, start, count) {
            Option::Some((vs, end)) => vs.len() == (if count <= 0 {
                0
            } else {
                count
            }) && end >= start && (count > 0 ==> end <= items.len()),
            Option::None => true,
        },
    decreases count,
{
    if count > 0 {
        match spec_parse_vert(items, start) {
            Option::Some((v, next)) => {
                lemma_verts_bounds(items, next, count - 1);
            },
            Option::None => {},
        }
    }
}

proof fn lemma_disk_bounds(items: Seq<LineItemView>, expected: Option<int>, start: int)
    ensures
        match spec_parse_disk(items, expected, start) {
            Option::Some((d, end)) => d.len() >= 1 && start + 1 <= end <= items.len(),
            Option::None => true,
        },
{
    if int_at(items, start) {
        let ct = items[start]->Int_0 as int;
        if ct >= 1 {
            lemma_verts_bounds(items, start + 1, ct);
        }
    }
}

fn parse_disk(items: &[LineItem], expected_size: Option<usize>, start: usize) -> (r: Option<
    (Disk, usize),
>)
    ensures
        match r {
            Option::Some((d, next)) => spec_parse_disk(
                views_of(items@),
                size_view(expected_size),
                start as int,
            ) == Option::Some((d@, next as int)),
            Option::None => spec_parse_disk(
                views_of(items@),
                size_view(expected_size),
                start as int,
            ) is None,
        },
{
    let ghost v = views_of(items@);
    let mut idx = start;
    let v_ct = if let Some(LineItem::Int(i)) = items.get(idx) {
        *i
    } else {
        return None;
    };
    if v_ct < 1 {
        return None;
    }
    let v_ct = v_ct as usize;
    idx = idx + 1;
    if let Some(exp) = expected_size {
        if v_ct != exp {
            return None;
        }
    }
    let mut disk: Disk = Vec::new();
    let mut k: usize = 0;
    proof {
        match spec_parse_verts(v, start + 1, v_ct as int) {
            Option::Some((rest, end)) => {
                assert(disk@ + rest =~= rest);
            },
            Option::None => {},
        }
    }
    while k < v_ct
        invariant
            0 <= k <= v_ct,
            disk@.len() == k,
            v == views_of(items@),
            spec_parse_disk(v, size_view(expected_size), start as int) == spec_parse_verts(
                v,
                start + 1,
                v_ct as int,
            ),
            spec_parse_verts(v, start + 1, v_ct as int) == match spec_parse_verts(
                v,
                idx as int,
                v_ct - k,
            ) {
                Option::Some((rest, end)) => Option::Some((disk@ + rest, end)),
                Option::None => Option::<(Seq<DiskVertex>, int)>::None,
            },
        decreases v_ct - k,
    {
        if let Some((vert, new_idx)) = parse_vert(items, idx) {
            let ghost disk_before = disk@;
            idx = new_idx;
            disk.push(vert);
            k = k + 1;
            proof {
                assert(disk@ =~= disk_before.push(vert));
                match spec_parse_verts(v, idx as int, v_ct - k) {
                    Option::Some((rest, end)) => {
                        assert(disk_before + (seq![vert] + rest) =~= disk@ + rest);
                    },
                    Option::None => {},
                }
            }
        } else {
            return None;
        }
    }
    proof {
        assert(spec_parse_verts(v, idx as int, 0) == Option::Some(
            (Seq::<DiskVertex>::empty(), idx as int),
        ));
        assert(disk@ + Seq::<DiskVertex>::empty() =~= disk@);
    }
    Some((disk, idx))
}

// ---------- one group of disks ----------

/// A run of up to `count` disks, each forced to the size of the first;
/// a failing disk stops the run, keeps what was read, and marks it broken.
pub open spec fn spec_parse_disk_run(
    items: Seq<LineItemView>,
    start: int,
    count: int,
    expected: Option<int>,
) -> (Seq<Seq<DiskVertex>>, int, bool)
    decreases count,
{
    if count <= 0 {
        (Seq::empty(), start, false)
    } else {
        match spec_parse_disk(items, expected, start) {
            Option::None => (Seq::empty(), start, true),
            Option::Some((d, next)) => {
                let (rest, end, broken) = spec_parse_disk_run(
                    items,
                    next,
                    count - 1,
                    Option::Some(d.len() as int),
                );
                (seq![d] + rest, end, broken)
            },
        }
    }
}

proof fn lemma_run_bounds(items: Seq<LineItemView>, start: int, count: int, expected: Option<int>)
    requires
        0 <= start <= items.len(),
    ensures
        ({
            let (ds, end, broken) = spec_parse_disk_run(items, start, count, expected);
            start <= end <= items.len()
        }),
    decreases count,
{
    if count > 0 {
        match spec_parse_disk(items, expected, start) {
            Option::None => {},
            Option::Some((d, next)) => {
                lemma_disk_bounds(items, expected, start);
                lemma_run_bounds(items, next, count - 1, Option::Some(d.len() as int));
            },
        }
    }
}

fn parse_disk_run(items: &[LineItem], start: usize, count: usize) -> (r: (Vec<Disk>, usize, bool))
    ensures
        ({
            let (ds, end, broken) = spec_parse_disk_run(
                views_of(items@),
                start as int,
                count as int,
                Option::None,
            );
            disks_view(r.0@) == ds && r.1 == end && r.2 == broken
        }),
{
    let ghost v = views_of(items@);
    let mut expected: Option<usize> = None;
    let mut out: Vec<Disk> = Vec::new();
    let mut idx = start;
    let mut k: usize = 0;
    proof {
        assert(disks_view(out@) =~= Seq::<Seq<DiskVertex>>::empty());
    }
    while k < count
        invariant
            0 <= k <= count,
            v == views_of(items@),
            ({
                let (ds, end, broken) = spec_parse_disk_run(
                    v,
                    start as int,
                    count as int,
                    Option::None,
                );
                let (rds, rend, rbroken) = spec_parse_disk_run(
                    v,
                    idx as int,
                    count - k,
                    size_view(expected),
                );
                ds == disks_view(out@) + rds && end == rend && broken == rbroken
            }),
        decreases count - k,
    {
        match parse_disk(items, expected, idx) {
            Some((disk, new_idx)) => {
                let ghost before = out@;
                let ghost d = disk@;
                expected = Some(disk.len());
                out.push(disk);
                idx = new_idx;
                k = k + 1;
                proof {
                    assert(disks_view(out@) =~= disks_view(before).push(d));
                    let (rds, rend, rbroken) = spec_parse_disk_run(
                        v,
                        idx as int,
                        count - k,
                        size_view(expected),
                    );
                    assert(disks_view(before) + (seq![d] + rds) =~= disks_view(out@) + rds);
                }
            },
            None => {
                proof {
                    assert(disks_view(out@) + Seq::<Seq<DiskVertex>>::empty() =~= disks_view(
                        out@,
                    ));
                }
                return (out, idx, true);
            },
        }
    }
    proof {
        assert(disks_view(out@) + Seq::<Seq<DiskVertex>>::empty() =~= disks_view(out@));
    }
    (out, idx, false)
}

// ---------- the disk stage ----------

/// The outer scan of the disk stage, beginning at `idx` with `acc` already
/// read: group counts below one (or a missing count) skip one token; a broken
/// group keeps its disks and resumes the scan after them; the first clean
/// group ends the stage. The scan fails when the input runs out first.
pub open spec fn spec_parse_disks_loop(
    items: Seq<LineItemView>,
    idx: int,
    acc: Seq<Seq<DiskVertex>>,
) -> Option<(Seq<Seq<DiskVertex>>, int)>
    decreases items.len() - idx,
    when true
    via spec_parse_disks_loop_dec
{
    if !(0 <= idx < items.len()) {
        Option::None
    } else {
        let ct = if items[idx] is Int {
            items[idx]->Int_0 as int
        } else {
            0
        };
        if ct < 1 {
            spec_parse_disks_loop(items, idx + 1, acc)
        } else {
            let (ds, end, broken) = spec_parse_disk_run(items, idx + 1, ct, Option::None);
            if !broken {
                Option::Some((acc + ds, end))
            } else {
                spec_parse_disks_loop(items, end, acc + ds)
            }
        }
    }
}

#[via_fn]
proof fn spec_parse_disks_loop_dec(items: Seq<LineItemView>, idx: int, acc: Seq<Seq<DiskVertex>>) {
    if 0 <= idx < items.len() {
        let ct = if items[idx] is Int {
            items[idx]->Int_0 as int
        } else {
            0
        };
        if ct >= 1 {
            lemma_run_bounds(items, idx + 1, ct, Option::None);
        }
    }
}

/// The whole disk stage, beginning at `start` with nothing read.
pub open spec fn spec_parse_disks(items: Seq<LineItemView>, start: int) -> Option<
    (Seq<Seq<DiskVertex>>, int),
> {
    spec_parse_disks_loop(items, start, Seq::empty())
}

/// When every group the scan could open is broken, the disk stage fails:
/// with `lemma_group_is_uniform` (an unbroken group is uniform, so a group
/// holding a disk whose vertex count differs from its first disk's is
/// broken), a mismatch in every candidate group makes the whole stage
/// return nothing.
pub proof fn lemma_no_clean_group_means_failure(
    items: Seq<LineItemView>,
    idx: int,
    acc: Seq<Seq<DiskVertex>>,
)
    requires
        forall|p: int|
            #[trigger] int_at(items, p) && items[p]->Int_0 >= 1 ==> (spec_parse_disk_run(
                items,
                p + 1,
                items[p]->Int_0 as int,
                Option::None,
            ).2),
    ensures
        spec_parse_disks_loop(items, idx, acc) is None,
    decreases items.len() - idx,
{
    if 0 <= idx < items.len() {
        let ct = if items[idx] is Int {
            items[idx]->Int_0 as int
        } else {
            0
        };
        if ct < 1 {
            lemma_no_clean_group_means_failure(items, idx + 1, acc);
        } else {
            let (ds, end, broken) = spec_parse_disk_run(items, idx + 1, ct, Option::None);
            assert(int_at(items, idx));
            assert(broken);
            lemma_run_bounds(items, idx + 1, ct, Option::None);
            lemma_no_clean_group_means_failure(items, end, acc + ds);
        }
    }
}

/// A disk that declares any vertex count other than the expected one does
/// not parse: inside a group, a count differing from the first disk's fails
/// that disk.
pub proof fn lemma_mismatched_disk_fails(items: Seq<LineItemView>, n: int, start: int)
    requires
        int_at(items, start),
        items[start]->Int_0 != n,
    ensures
        spec_parse_disk(items, Option::Some(n), start) is None,
{
}

/// Every disk of one group has the size the group was opened with, so all
/// disks within one group invocation agree on their vertex count.
pub proof fn lemma_group_disks_share_one_size(
    items: Seq<LineItemView>,
    start: int,
    count: int,
    n: int,
)
    ensures
        ({
            let (ds, end, broken) = spec_parse_disk_run(items, start, count, Option::Some(n));
            forall|i: int| 0 <= i < ds.len() ==> (#[trigger] ds[i]).len() == n
        }),
    decreases count,
{
    if count > 0 {
        match spec_parse_disk(items, Option::Some(n), start) {
            Option::None => {},
            Option::Some((d, next)) => {
                lemma_disk_bounds(items, Option::Some(n), start);
                assert(d.len() == n) by {
                    lemma_verts_bounds(items, start + 1, items[start]->Int_0 as int);
                }
                lemma_group_disks_share_one_size(items, next, count - 1, n);
                let (rest, e2, b2) = spec_parse_disk_run(
                    items,
                    next,
                    count - 1,
                    Option::Some(d.len() as int),
                );
                assert(forall|i: int|
                    0 <= i < rest.len() + 1 ==> ((#[trigger] (seq![d] + rest)[i]).len() == n));
            },
        }
    }
}

/// All disks of one group, opened without an expected size, share the first
/// disk's vertex count.
pub proof fn lemma_group_is_uniform(items: Seq<LineItemView>, start: int, count: int)
    ensures
        ({
            let (ds, end, broken) = spec_parse_disk_run(items, start, count, Option::None);
            forall|i: int| 0 <= i < ds.len() ==> (#[trigger] ds[i]).len() == ds[0].len()
        }),
{
    if count > 0 {
        match spec_parse_disk(items, Option::None, start) {
            Option::None => {},
            Option::Some((d, next)) => {
                lemma_group_disks_share_one_size(items, next, count - 1, d.len() as int);
                let (rest, e2, b2) = spec_parse_disk_run(
                    items,
                    next,
                    count - 1,
                    Option::Some(d.len() as int),
                );
                let ds = seq![d] + rest;
                assert(ds[0] == d);
                assert(forall|i: int| 0 <= i < ds.len() ==> (#[trigger] ds[i]).len() == d.len());
            },
        }
    }
}

/// Reads the disk groups from the token list: an outer group count, then for
/// each disk a vertex count and that many vertices, retrying after skipped or
/// broken groups as the scan spec says.
pub fn parse_disks(items: &[LineItem], start: usize) -> (r: Option<(Vec<Disk>, usize)>)
    ensures
        match r {
            Option::Some((disks, next)) => spec_parse_disks(views_of(items@), start as int)
                == Option::Some((disks_view(disks@), next as int)),
            Option::None => spec_parse_disks(views_of(items@), start as int) is None,
        },
{
    let ghost v = views_of(items@);
    let mut idx = start;
    let mut disks: Vec<Disk> = Vec::new();
    proof {
        assert(disks_view(disks@) =~= Seq::<Seq<DiskVertex>>::empty());
    }
    while idx < items.len()
        invariant
            v == views_of(items@),
            idx <= items@.len() || idx == start,
            spec_parse_disks(v, start as int) == spec_parse_disks_loop(
                v,
                idx as int,
                disks_view(disks@),
            ),
        decreases items@.len() - idx,
    {
        let disk_ct = if let Some(LineItem::Int(count)) = items.get(idx) {
            *count
        } else {
            0
        };
        idx = idx + 1;
        if disk_ct < 1 {
            continue;
        }
        let ct = disk_ct as usize;
        let ghost acc_before = disks_view(disks@);
        let (mut group, new_idx, broken) = parse_disk_run(items, idx, ct);
        let ghost group_views = disks_view(group@);
        disks.append(&mut group);
        proof {
            assert(disks_view(disks@) =~= acc_before + group_views);
            lemma_run_bounds(v, idx as int, ct as int, Option::None);
        }
        if !broken {
            return Some((disks, new_idx));
        }
        idx = new_idx;
    }
    None
}

// ---------- small token readers ----------

fn read_int(items: &[LineItem], idx: usize) -> (r: Option<i32>)
    ensures
        match r {
            Option::Some(i) => int_at(views_of(items@), idx as int) && views_of(items@)[
                idx as int
            ]->Int_0 == i,
            Option::None => !int_at(views_of(items@), idx as int),
        },
{
    if let Some(LineItem::Int(i)) = items.get(idx) {
        Some(*i)
    } else {
        None
    }
}

fn read_float(items: &[LineItem], idx: usize) -> (r: Option<u32>)
    ensures
        match r {
            Option::Some(b) => float_at(views_of(items@), idx as int) && views_of(items@)[
                idx as int
            ]->Float_0 == b,
            Option::None => !float_at(views_of(items@), idx as int),
        },
{
    if let Some(LineItem::Float(f)) = items.get(idx) {
        Some(*f)
    } else {
        None
    }
}

// ---------- the body stage ----------

/// One fixed row of the body-segment table: disk-info index, action, float
/// value, color, left child, right child.
pub open spec fn spec_parse_row(items: Seq<LineItemView>, start: int) -> Option<
    (raw::BodySegment, int),
> {
    if int_at(items, start) && int_at(items, start + 1) && float_at(items, start + 2) && int_at(
        items,
        start + 3,
    ) && int_at(items, start + 4) && int_at(items, start + 5) {
        Option::Some(
            (
                raw::BodySegment {
                    disk_info_idx: items[start]->Int_0,
                    action: items[start + 1]->Int_0,
                    value: items[start + 2]->Float_0,
                    color: items[start + 3]->Int_0,
                    left: items[start + 4]->Int_0,
                    right: items[start + 5]->Int_0,
                },
                start + 6,
            ),
        )
    } else {
        Option::None
    }
}

/// A run of `count` body rows.
pub open spec fn spec_parse_rows(items: Seq<LineItemView>, start: int, count: int) -> Option<
    (Seq<raw::BodySegment>, int),
>
    decreases count,
{
    if count <= 0 {
        Option::Some((Seq::empty(), start))
    } else {
        match spec_parse_row(items, start) {
            Option::Some((row, next)) => match spec_parse_rows(items, next, count - 1) {
                Option::Some((rest, end)) => Option::Some((seq![row] + rest, end)),
                Option::None => Option::None,
            },
            Option::None => Option::None,
        }
    }
}

/// The body stage: a segment count, possibly given by the historical
/// negative-count escape (a negative count skips one float and reads a
/// replacement count, which must be nonnegative), then that many rows.
pub open spec fn spec_parse_body(items: Seq<LineItemView>, start: int) -> Option<
    (Seq<raw::BodySegment>, int),
> {
    if int_at(items, start) {
        let c0 = items[start]->Int_0;
        if c0 < 0 {
            if float_at(items, start + 1) {
                if int_at(items, start + 2) {
                    let c1 = items[start + 2]->Int_0;
                    if c1 < 0 {
                        Option::None
                    } else {
                        spec_parse_rows(items, start + 3, c1 as int)
                    }
                } else {
                    Option::None
                }
            } else {
                Option::None
            }
        } else {
            spec_parse_rows(items, start + 1, c0 as int)
        }
    } else {
        Option::None
    }
}

fn parse_row(items: &[LineItem], start: usize) -> (r: Option<(raw::BodySegment, usize)>)
    ensures
        match r {
            Option::Some((row, next)) => spec_parse_row(views_of(items@), start as int)
                == Option::Some((row, next as int)),
            Option::None => spec_parse_row(views_of(items@), start as int) is None,
        },
{
    let mut idx = start;
    let n_items: usize = items.len();
    proof { assert(n_items == items@.len()); }
    let disk_info_idx = match read_int(items, idx) {
        Some(i) => i,
        None => {
            return None;
        },
    };
    idx = idx + 1;
    let action = match read_int(items, idx) {
        Some(i) => i,
        None => {
            return None;
        },
    };
    idx = idx + 1;
    let value = match read_float(items, idx) {
        Some(f) => f,
        None => {
            return None;
        },
    };
    idx = idx + 1;
    let color = match read_int(items, idx) {
        Some(i) => i,
        None => {
            return None;
        },
    };
    idx = idx + 1;
    let left = match read_int(items, idx) {
        Some(i) => i,
        None => {
            return None;
        },
    };
    idx = idx + 1;
    let right = match read_int(items, idx) {
        Some(i) => i,
        None => {
            return None;
        },
    };
    idx = idx + 1;
    Some((raw::BodySegment { disk_info_idx, action, value, color, left, right }, idx))
}

/// Reads the body-segment table: a (possibly escape-encoded) row count, then
/// that many fixed six-field rows.
pub fn parse_body(items: &[LineItem], start: usize) -> (r: Option<(Vec<raw::BodySegment>, usize)>)
    ensures
        match r {
            Option::Some((body, next)) => spec_parse_body(views_of(items@), start as int)
                == Option::Some((body@, next as int)),
            Option::None => spec_parse_body(views_of(items@), start as int) is None,
        },
{
    let ghost v = views_of(items@);
    let mut idx = start;
    let n_items: usize = items.len();
    proof { assert(n_items == items@.len()); }
    let c0 = match read_int(items, idx) {
        Some(i) => i,
        None => {
            return None;
        },
    };
    idx = idx + 1;
    let count = if c0 < 0 {
        match read_float(items, idx) {
            Some(_) => {},
            None => {
                return None;
            },
        }
        idx = idx + 1;
        let c1 = match read_int(items, idx) {
            Some(i) => i,
            None => {
                return None;
            },
        };
        idx = idx + 1;
        if c1 < 0 {
            return None;
        }
        c1 as usize
    } else {
        c0 as usize
    };
    let ghost rows_start = idx as int;
    let mut body: Vec<raw::BodySegment> = Vec::new();
    let mut k: usize = 0;
    proof {
        match spec_parse_rows(v, rows_start, count as int) {
            Option::Some((rest, end)) => {
                assert(body@ + rest =~= rest);
            },
            Option::None => {},
        }
    }
    while k < count
        invariant
            0 <= k <= count,
            v == views_of(items@),
            body@.len() == k,
            spec_parse_body(v, start as int) == spec_parse_rows(v, rows_start, count as int),
            spec_parse_rows(v, rows_start, count as int) == match spec_parse_rows(
                v,
                idx as int,
                count - k,
            ) {
                Option::Some((rest, end)) => Option::Some((body@ + rest, end)),
                Option::None => Option::<(Seq<raw::BodySegment>, int)>::None,
            },
        decreases count - k,
    {
        match parse_row(items, idx) {
            Some((row, new_idx)) => {
                let ghost before = body@;
                body.push(row);
                idx = new_idx;
                k = k + 1;
                proof {
                    assert(body@ =~= before.push(row));
                    match spec_parse_rows(v, idx as int, count - k) {
                        Option::Some((rest, end)) => {
                            assert(before + (seq![row] + rest) =~= body@ + rest);
                        },
                        Option::None => {},
                    }
                }
            },
            None => {
                return None;
            },
        }
    }
    proof {
        assert(body@ + Seq::<raw::BodySegment>::empty() =~= body@);
    }
    Some((body, idx))
}

// ---------- the disk-information stage ----------

/// One disk-information record: shift (two floats), scale (two floats),
/// disk index, id, flags (three integers), then the two four-element payload
/// arrays with their elements interleaved.
pub open spec fn spec_parse_info_record(items: Seq<LineItemView>, start: int) -> Option<
    (raw::DiskInformation, int),
> {
    if float_at(items, start) && float_at(items, start + 1) && float_at(items, start + 2)
        && float_at(items, start + 3) && int_at(items, start + 4) && int_at(items, start + 5)
        && int_at(items, start + 6) && float_at(items, start + 7) && float_at(items, start + 8)
        && float_at(items, start + 9) && float_at(items, start + 10) && float_at(items, start + 11)
        && float_at(items, start + 12) && float_at(items, start + 13) && float_at(
        items,
        start + 14,
    ) {
        Option::Some(
            (
                raw::DiskInformation {
                    shift_x: items[start]->Float_0,
                    shift_y: items[start + 1]->Float_0,
                    scale_x: items[start + 2]->Float_0,
                    scale_y: items[start + 3]->Float_0,
                    disk_idx: items[start + 4]->Int_0,
                    id: items[start + 5]->Int_0,
                    flags: items[start + 6]->Int_0,
                    arr1: raw::FloatQuad {
                        a: items[start + 7]->Float_0,
                        b: items[start + 9]->Float_0,
                        c: items[start + 11]->Float_0,
                        d: items[start + 13]->Float_0,
                    },
                    arr2: raw::FloatQuad {
                        a: items[start + 8]->Float_0,
                        b: items[start + 10]->Float_0,
                        c: items[start + 12]->Float_0,
                        d: items[start + 14]->Float_0,
                    },
                },
                start + 15,
            ),
        )
    } else {
        Option::None
    }
}

/// A run of `count` disk-information records.
pub open spec fn spec_parse_info_records(items: Seq<LineItemView>, start: int, count: int) -> Option<
    (Seq<raw::DiskInformation>, int),
>
    decreases count,
{
    if count <= 0 {
        Option::Some((Seq::empty(), start))
    } else {
        match spec_parse_info_record(items, start) {
            Option::Some((rec, next)) => match spec_parse_info_records(items, next, count - 1) {
                Option::Some((rest, end)) => Option::Some((seq![rec] + rest, end)),
                Option::None => Option::None,
            },
            Option::None => Option::None,
        }
    }
}

/// The disk-information stage: a record count (a negative count yields an
/// empty list), then that many records.
pub open spec fn spec_parse_disk_info(items: Seq<LineItemView>, start: int) -> Option<
    Seq<raw::DiskInformation>,
> {
    if int_at(items, start) {
        let ct = items[start]->Int_0 as int;
        match spec_parse_info_records(items, start + 1, ct) {
            Option::Some((recs, end)) => Option::Some(recs),
            Option::None => Option::None,
        }
    } else {
        Option::None
    }
}

fn parse_info_record(items: &[LineItem], start: usize) -> (r: Option<(raw::DiskInformation, usize)>)
    ensures
        match r {
            Option::Some((rec, next)) => spec_parse_info_record(views_of(items@), start as int)
                == Option::Some((rec, next as int)),
            Option::None => spec_parse_info_record(views_of(items@), start as int) is None,
        },
{
    let mut idx = start;
    let n_items: usize = items.len();
    proof { assert(n_items == items@.len()); }
    let shift_x = match read_float(items, idx) {
        Some(f) => f,
        None => {
            return None;
        },
    };
    idx = idx + 1;
    let shift_y = match read_float(items, idx) {
        Some(f) => f,
        None => {
            return None;
        },
    };
    idx = idx + 1;
    let scale_x = match read_float(items, idx) {
        Some(f) => f,
        None => {
            return None;
        },
    };
    idx = idx + 1;
    let scale_y = match read_float(items, idx) {
        Some(f) => f,
        None => {
            return None;
        },
    };
    idx = idx + 1;
    let disk_idx = match read_int(items, idx) {
        Some(i) => i,
        None => {
            return None;
        },
    };
    idx = idx + 1;
    let id = match read_int(items, idx) {
        Some(i) => i,
        None => {
            return None;
        },
    };
    idx = idx + 1;
    let flags = match read_int(items, idx) {
        Some(i) => i,
        None => {
            return None;
        },
    };
    idx = idx + 1;
    let a1 = match read_float(items, idx) {
        Some(f) => f,
        None => {
            return None;
        },
    };
    idx = idx + 1;
    let a2 = match read_float(items, idx) {
        Some(f) => f,
        None => {
            return None;
        },
    };
    idx = idx + 1;
    let b1 = match read_float(items, idx) {
        Some(f) => f,
        None => {
            return None;
        },
    };
    idx = idx + 1;
    let b2 = match read_float(items, idx) {
        Some(f) => f,
        None => {
            return None;
        },
    };
    idx = idx + 1;
    let c1 = match read_float(items, idx) {
        Some(f) => f,
        None => {
            return None;
        },
    };
    idx = idx + 1;
    let c2 = match read_float(items, idx) {
        Some(f) => f,
        None => {
            return None;
        },
    };
    idx = idx + 1;
    let d1 = match read_float(items, idx) {
        Some(f) => f,
        None => {
            return None;
        },
    };
    idx = idx + 1;
    let d2 = match read_float(items, idx) {
        Some(f) => f,
        None => {
            return None;
        },
    };
    idx = idx + 1;
    Some(
        (
            raw::DiskInformation {
                shift_x,
                shift_y,
                scale_x,
                scale_y,
                disk_idx,
                id,
                flags,
                arr1: raw::FloatQuad { a: a1, b: b1, c: c1, d: d1 },
                arr2: raw::FloatQuad { a: a2, b: b2, c: c2, d: d2 },
            },
            idx,
        ),
    )
}

/// Reads the disk-information records: a count, then that many fixed-shape
/// records; a negative count yields an empty list.
pub fn parse_disk_info(items: &[LineItem], start: usize) -> (r: Option<Vec<raw::DiskInformation>>)
    ensures
        match r {
            Option::Some(info) => spec_parse_disk_info(views_of(items@), start as int)
                == Option::Some(info@),
            Option::None => spec_parse_disk_info(views_of(items@), start as int) is None,
        },
{
    let ghost v = views_of(items@);
    let mut idx = start;
    let n_items: usize = items.len();
    proof { assert(n_items == items@.len()); }
    let info_ct = match read_int(items, idx) {
        Some(i) => i,
        None => {
            return None;
        },
    };
    idx = idx + 1;
    let count: usize = if info_ct < 0 {
        0
    } else {
        info_ct as usize
    };
    let ghost recs_start = idx as int;
    let mut info: Vec<raw::DiskInformation> = Vec::new();
    let mut k: usize = 0;
    proof {
        assert(spec_parse_info_records(v, recs_start, info_ct as int) == spec_parse_info_records(
            v,
            recs_start,
            count as int,
        ));
        match spec_parse_info_records(v, recs_start, count as int) {
            Option::Some((rest, end)) => {
                assert(info@ + rest =~= rest);
            },
            Option::None => {},
        }
    }
    while k < count
        invariant
            0 <= k <= count,
            v == views_of(items@),
            info@.len() == k,
            spec_parse_disk_info(v, start as int) == match spec_parse_info_records(
                v,
                recs_start,
                count as int,
            ) {
                Option::Some((recs, end)) => Option::Some(recs),
                Option::None => Option::<Seq<raw::DiskInformation>>::None,
            },
            spec_parse_info_records(v, recs_start, count as int) == match spec_parse_info_records(
                v,
                idx as int,
                count - k,
            ) {
                Option::Some((rest, end)) => Option::Some((info@ + rest, end)),
                Option::None => Option::<(Seq<raw::DiskInformation>, int)>::None,
            },
        decreases count - k,
    {
        match parse_info_record(items, idx) {
            Some((rec, new_idx)) => {
                let ghost before = info@;
                info.push(rec);
                idx = new_idx;
                k = k + 1;
                proof {
                    assert(info@ =~= before.push(rec));
                    match spec_parse_info_records(v, idx as int, count - k) {
                        Option::Some((rest, end)) => {
                            assert(before + (seq![rec] + rest) =~= info@ + rest);
                        },
                        Option::None => {},
                    }
                }
            },
            None => {
                return None;
            },
        }
    }
    proof {
        assert(info@ + Seq::<raw::DiskInformation>::empty() =~= info@);
    }
    Some(info)
}

// ---------- the whole pipeline ----------

/// The position the backward scan reaches from `idx`: the nearest position at
/// or below it that is preceded by a tag token, or zero.
pub open spec fn spec_scan_start(items: Seq<LineItemView>, idx: int) -> int
    decreases idx,
{
    if idx <= 0 {
        0
    } else if items[idx - 1] is Tag {
        idx
    } else {
        spec_scan_start(items, idx - 1)
    }
}

/// Where parsing begins: the last position preceded by a tag token (the
/// region before it is an unparsed header), or zero.
pub open spec fn spec_start_index(items: Seq<LineItemView>) -> int {
    if items.len() == 0 {
        0
    } else {
        spec_scan_start(items, items.len() - 1)
    }
}

fn find_start(items: &[LineItem]) -> (r: usize)
    ensures
        r as int == spec_start_index(views_of(items@)),
{
    let ghost v = views_of(items@);
    let n = items.len();
    if n == 0 {
        return 0;
    }
    let mut idx = n - 1;
    while idx > 0
        invariant
            0 <= idx <= n - 1,
            n == items@.len(),
            n >= 1,
            v == views_of(items@),
            spec_start_index(v) == spec_scan_start(v, idx as int),
        decreases idx,
    {
        let tag = match items.get(idx - 1) {
            Some(LineItem::Tag(_)) => true,
            _ => false,
        };
        if tag {
            return idx;
        }
        idx = idx - 1;
    }
    idx
}

/// Runs the whole pipeline on one input: tokenize, locate the parse start,
/// read the three stages, and cook the model. Each failing stage names
/// itself; a body table that is not a tree reports the cycle.
pub fn parse_model(bytes: &[u8]) -> (r: Result<Model, AppError>)
    ensures
        ({
            let toks = tokens_of(bytes@);
            let start = spec_start_index(toks);
            match spec_parse_disks(toks, start) {
                Option::None => (match r {
                    Result::Err(e) => e.0@ == "Parse failure: disks"@,
                    Result::Ok(_) => false,
                }),
                Option::Some((disks, i1)) => match spec_parse_body(toks, i1) {
                    Option::None => (match r {
                        Result::Err(e) => e.0@ == "Parse failure: body"@,
                        Result::Ok(_) => false,
                    }),
                    Option::Some((body, i2)) => match spec_parse_disk_info(toks, i2) {
                        Option::None => (match r {
                            Result::Err(e) => e.0@ == "Parse failure: disk information"@,
                            Result::Ok(_) => false,
                        }),
                        Option::Some(info) => {
                            if body.len() > 0 && dfs_list(
                                body,
                                seq![0],
                                no_row_visited(body.len() as int),
                            ) is None {
                                match r {
                                    Result::Err(e) => e.0@ == "Cycle detected"@,
                                    Result::Ok(_) => false,
                                }
                            } else {
                                match r {
                                    Result::Ok(m) => {
                                        &&& model_wf(m)
                                        &&& disks_view(m.disks@) == disks
                                        &&& m.disk_info@.len() == info.len()
                                        &&& (forall|i: int|
                                            0 <= i < info.len() ==> m.disk_info@[i]
                                                == spec_from_raw(info[i], disks.len() as int))
                                        &&& (match m.body {
                                            Option::Some(seg) => body.len() > 0 && node_built(
                                                body,
                                                info.len() as int,
                                                0,
                                                no_row_visited(body.len() as int),
                                                *seg,
                                            ),
                                            Option::None => body.len() == 0,
                                        })
                                    },
                                    Result::Err(_) => false,
                                }
                            }
                        },
                    },
                },
            }
        }),
{
    let items = parse_lines(bytes);
    let start = find_start(items.as_slice());
    let (disks, i1) = match parse_disks(items.as_slice(), start) {
        Some(p) => p,
        None => {
            return Err(AppError("Parse failure: disks".to_owned()));
        },
    };
    let (body, i2) = match parse_body(items.as_slice(), i1) {
        Some(p) => p,
        None => {
            return Err(AppError("Parse failure: body".to_owned()));
        },
    };
    let info = match parse_disk_info(items.as_slice(), i2) {
        Some(p) => p,
        None => {
            return Err(AppError("Parse failure: disk information".to_owned()));
        },
    };
    let config = ModelConfig { disks, disk_info: info, body };
    match Model::new(config) {
        Ok(m) => Ok(m),
        Err(_) => Err(AppError("Cycle detected".to_owned())),
    }
}

} // verus!
