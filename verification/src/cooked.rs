use vstd::prelude::*;

use crate::parse::Disk;
use crate::raw;

verus! {

/// A disk-information record after resolution: the signed disk index has
/// become an index into the model's disk list, or nothing when it was
/// invalid.
#[derive(Clone, Copy, Debug)]
pub struct DiskInformation {
    pub shift_x: u32,
    pub shift_y: u32,
    pub scale_x: u32,
    pub scale_y: u32,
    pub disk: Option<usize>,
    pub id: i32,
    pub flags: i32,
    pub arr1: raw::FloatQuad,
    pub arr2: raw::FloatQuad,
}

/// What resolving one raw record against `disks_len` disks yields.
pub open spec fn spec_from_raw(info: raw::DiskInformation, disks_len: int) -> DiskInformation {
    DiskInformation {
        shift_x: info.shift_x,
        shift_y: info.shift_y,
        scale_x: info.scale_x,
        scale_y: info.scale_y,
        disk: if 0 <= info.disk_idx && (info.disk_idx as int) < disks_len {
            Option::Some(info.disk_idx as usize)
        } else {
            Option::None
        },
        id: info.id,
        flags: info.flags,
        arr1: info.arr1,
        arr2: info.arr2,
    }
}

impl DiskInformation {
    /// Resolves a raw record: an in-range disk index is kept, any other
    /// degrades to "no disk".
    pub fn from_raw(raw_info: raw::DiskInformation, disks: &[Disk]) -> (r: Self)
        ensures
            r == spec_from_raw(raw_info, disks@.len() as int),
    {
        let disk = if raw_info.disk_idx >= 0 && (raw_info.disk_idx as usize) < disks.len() {
            Some(raw_info.disk_idx as usize)
        } else {
            None
        };
        Self {
            shift_x: raw_info.shift_x,
            shift_y: raw_info.shift_y,
            scale_x: raw_info.scale_x,
            scale_y: raw_info.scale_y,
            disk,
            id: raw_info.id,
            flags: raw_info.flags,
            arr1: raw_info.arr1,
            arr2: raw_info.arr2,
        }
    }
}

/// One node of the reconstructed body tree. `disk_info` indexes the model's
/// resolved disk-information list and is attached only for the two
/// cross-section-placing actions.
#[derive(Debug)]
pub struct BodySegment {
    pub index: usize,
    pub disk_info: Option<usize>,
    pub action: i32,
    pub value: u32,
    pub color: Option<u32>,
    pub left: Option<Box<BodySegment>>,
    pub right: Option<Box<BodySegment>>,
}

/// The failure raised when a body-table row is reached twice during
/// reconstruction: the table did not describe a tree.
#[derive(Clone, Copy, PartialEq, Eq, Structural, Debug)]
pub struct CycleError;

// ---------- the visited set ----------

pub open spec fn count_true(s: Seq<bool>) -> int
    decreases s.len(),
{
    if s.len() == 0 {
        0
    } else {
        count_true(s.drop_last()) + if s.last() {
            1int
        } else {
            0int
        }
    }
}

proof fn lemma_count_true_bounds(s: Seq<bool>)
    ensures
        0 <= count_true(s) <= s.len(),
    decreases s.len(),
{
    if s.len() > 0 {
        lemma_count_true_bounds(s.drop_last());
    }
}

proof fn lemma_count_true_update(s: Seq<bool>, i: int)
    requires
        0 <= i < s.len(),
        !s[i],
    ensures
        count_true(s.update(i, true)) == count_true(s) + 1,
    decreases s.len(),
{
    let t = s.update(i, true);
    if i == s.len() - 1 {
        assert(t.drop_last() =~= s.drop_last());
    } else {
        assert(t.drop_last() =~= s.drop_last().update(i, true));
        lemma_count_true_update(s.drop_last(), i);
    }
}

// ---------- the traversal of the flat table ----------

/// The visited flags after reconstructing, in order, the rows on the work
/// list (each row followed depth-first by its left then right children), or
/// nothing when some row is reached twice. Out-of-range entries resolve to
/// absent children and are skipped.
pub open spec fn dfs_list(raw: Seq<raw::BodySegment>, stack: Seq<int>, visited: Seq<bool>) -> Option<
    Seq<bool>,
>
    decreases raw.len() - count_true(visited), stack.len(),
    when visited.len() == raw.len()
    via dfs_list_dec
{
    if stack.len() == 0 {
        Option::Some(visited)
    } else {
        let idx = stack[0];
        if !(0 <= idx < raw.len()) {
            dfs_list(raw, stack.drop_first(), visited)
        } else if visited[idx] {
            Option::None
        } else {
            let row = raw[idx];
            dfs_list(
                raw,
                seq![row.left as int, row.right as int] + stack.drop_first(),
                visited.update(idx, true),
            )
        }
    }
}

#[via_fn]
proof fn dfs_list_dec(raw: Seq<raw::BodySegment>, stack: Seq<int>, visited: Seq<bool>) {
    if stack.len() > 0 {
        let idx = stack[0];
        if 0 <= idx < raw.len() && !visited[idx] {
            lemma_count_true_update(visited, idx);
            lemma_count_true_bounds(visited.update(idx, true));
        }
    }
}

proof fn lemma_dfs_grows(raw: Seq<raw::BodySegment>, stack: Seq<int>, visited: Seq<bool>)
    requires
        visited.len() == raw.len(),
    ensures
        match dfs_list(raw, stack, visited) {
            Option::Some(v2) => v2.len() == visited.len() && count_true(v2) >= count_true(visited),
            Option::None => true,
        },
    decreases raw.len() - count_true(visited), stack.len(),
{
    if stack.len() > 0 {
        let idx = stack[0];
        if !(0 <= idx < raw.len()) {
            lemma_dfs_grows(raw, stack.drop_first(), visited);
        } else if !visited[idx] {
            let row = raw[idx];
            lemma_count_true_update(visited, idx);
            lemma_count_true_bounds(visited.update(idx, true));
            lemma_dfs_grows(
                raw,
                seq![row.left as int, row.right as int] + stack.drop_first(),
                visited.update(idx, true),
            );
        }
    }
}

/// Processing one work list after another is processing their concatenation.
proof fn lemma_dfs_append(raw: Seq<raw::BodySegment>, s1: Seq<int>, s2: Seq<int>, visited: Seq<
    bool,
>)
    requires
        visited.len() == raw.len(),
    ensures
        dfs_list(raw, s1 + s2, visited) == match dfs_list(raw, s1, visited) {
            Option::Some(v2) => dfs_list(raw, s2, v2),
            Option::None => Option::<Seq<bool>>::None,
        },
    decreases raw.len() - count_true(visited), s1.len(),
{
    if s1.len() == 0 {
        assert(s1 + s2 =~= s2);
    } else {
        let idx = s1[0];
        assert((s1 + s2).drop_first() =~= s1.drop_first() + s2);
        if !(0 <= idx < raw.len()) {
            lemma_dfs_append(raw, s1.drop_first(), s2, visited);
        } else if !visited[idx] {
            let row = raw[idx];
            let pushed = seq![row.left as int, row.right as int];
            lemma_count_true_update(visited, idx);
            lemma_count_true_bounds(visited.update(idx, true));
            assert((pushed + (s1 + s2).drop_first()) =~= (pushed + s1.drop_first()) + s2);
            lemma_dfs_append(raw, pushed + s1.drop_first(), s2, visited.update(idx, true));
        }
    }
}

// ---------- the reconstructed node ----------

/// `seg` is exactly the node the reconstruction builds for row `idx` when
/// the visited flags are `visited` on entry: its fields are the row's cooked
/// fields, its children are the recursively built in-range children, and no
/// row below it is reached twice (the left subtree's visited flags carry
/// into the right subtree).
pub open spec fn node_built(
    raw: Seq<raw::BodySegment>,
    dlen: int,
    idx: int,
    visited: Seq<bool>,
    seg: BodySegment,
) -> bool
    decreases seg,
{
    let row = raw[idx];
    let v1 = visited.update(idx, true);
    let after_left = if 0 <= row.left < raw.len() {
        dfs_list(raw, seq![row.left as int], v1)
    } else {
        Option::Some(v1)
    };
    &&& 0 <= idx < raw.len()
    &&& visited.len() == raw.len()
    &&& !visited[idx]
    &&& seg.index == idx
    &&& seg.action == row.action
    &&& seg.value == row.value
    &&& seg.color == (if row.color >= 0 {
        Option::Some(row.color as u32)
    } else {
        Option::<u32>::None
    })
    &&& seg.disk_info == (if 0 <= row.action && row.action <= 1 && 0 <= row.disk_info_idx && (
        row.disk_info_idx as int
    ) < dlen {
        Option::Some(row.disk_info_idx as usize)
    } else {
        Option::<usize>::None
    })
    &&& (match seg.left {
        Option::Some(b) => 0 <= row.left < raw.len() && node_built(raw, dlen, row.left as int, v1, *b),
        Option::None => !(0 <= row.left < raw.len()),
    })
    &&& (match (seg.right, after_left) {
        (Option::Some(b), Option::Some(v2)) => 0 <= row.right < raw.len() && node_built(
            raw,
            dlen,
            row.right as int,
            v2,
            *b,
        ),
        (Option::None, Option::Some(v2)) => !(0 <= row.right < raw.len()),
        _ => false,
    })
}

fn build_node(
    raw_body: &Vec<raw::BodySegment>,
    dlen: usize,
    idx: usize,
    visited: &mut Vec<bool>,
) -> (r: Result<Box<BodySegment>, CycleError>)
    requires
        idx < raw_body@.len(),
        old(visited)@.len() == raw_body@.len(),
    ensures
        final(visited)@.len() == raw_body@.len(),
        match r {
            Result::Ok(seg) => dfs_list(raw_body@, seq![idx as int], old(visited)@)
                == Option::Some(final(visited)@) && node_built(
                raw_body@,
                dlen as int,
                idx as int,
                old(visited)@,
                *seg,
            ),
            Result::Err(_) => dfs_list(raw_body@, seq![idx as int], old(visited)@) is None,
        },
    decreases raw_body@.len() - count_true(visited@),
{
    let ghost v0 = visited@;
    if visited[idx] {
        return Err(CycleError);
    }
    visited.set(idx, true);
    let ghost v1 = visited@;
    proof {
        lemma_count_true_update(v0, idx as int);
        lemma_count_true_bounds(v1);
        assert(seq![idx as int].drop_first() =~= Seq::<int>::empty());
    }
    let row = raw_body[idx];
    let ghost pushed = seq![row.left as int, row.right as int];
    proof {
        assert(pushed + Seq::<int>::empty() =~= pushed);
        assert(dfs_list(raw_body@, seq![idx as int], v0) == dfs_list(raw_body@, pushed, v1));
        lemma_dfs_append(raw_body@, seq![row.left as int], seq![row.right as int], v1);
        assert(seq![row.left as int] + seq![row.right as int] =~= pushed);
    }
    let left: Option<Box<BodySegment>> = if row.left >= 0 && (row.left as usize) < raw_body.len() {
        match build_node(raw_body, dlen, row.left as usize, visited) {
            Ok(b) => Some(b),
            Err(e) => {
                proof {
                    assert(dfs_list(raw_body@, seq![row.left as int], v1) is None);
                }
                return Err(e);
            },
        }
    } else {
        proof {
            assert(dfs_list(raw_body@, Seq::<int>::empty(), v1) == Option::Some(v1));
            assert(seq![row.left as int].drop_first() =~= Seq::<int>::empty());
            assert(dfs_list(raw_body@, seq![row.left as int], v1) == Option::Some(v1));
        }
        None
    };
    let ghost v2 = visited@;
    proof {
        assert(dfs_list(raw_body@, seq![row.left as int], v1) == Option::Some(v2));
        lemma_dfs_grows(raw_body@, seq![row.left as int], v1);
    }
    let right: Option<Box<BodySegment>> = if row.right >= 0 && (row.right as usize)
        < raw_body.len() {
        proof {
            lemma_count_true_bounds(v2);
        }
        match build_node(raw_body, dlen, row.right as usize, visited) {
            Ok(b) => Some(b),
            Err(e) => {
                proof {
                    assert(dfs_list(raw_body@, seq![row.right as int], v2) is None);
                }
                return Err(e);
            },
        }
    } else {
        proof {
            assert(dfs_list(raw_body@, Seq::<int>::empty(), v2) == Option::Some(v2));
            assert(seq![row.right as int].drop_first() =~= Seq::<int>::empty());
            assert(dfs_list(raw_body@, seq![row.right as int], v2) == Option::Some(v2));
        }
        None
    };
    let disk_info: Option<usize> = if row.action >= 0 && row.action <= 1 && row.disk_info_idx >= 0 && (
    row.disk_info_idx as usize) < dlen {
        Some(row.disk_info_idx as usize)
    } else {
        None
    };
    let color: Option<u32> = if row.color >= 0 {
        Some(row.color as u32)
    } else {
        None
    };
    Ok(
        Box::new(
            BodySegment { index: idx, disk_info, action: row.action, value: row.value, color, left, right },
        ),
    )
}

/// The visited flags at the start of reconstruction: no row visited.
pub open spec fn no_row_visited(n: int) -> Seq<bool> {
    Seq::new(n as nat, |i: int| false)
}

/// Rebuilds the flat body table into a tree rooted at row zero. An empty
/// table yields no body. A row reached twice — a cycle, or two parents —
/// yields the cycle failure instead of looping forever.
pub fn body_from_raw(raw_body: &Vec<raw::BodySegment>, disk_info: &Vec<DiskInformation>) -> (r:
    Result<Option<Box<BodySegment>>, CycleError>)
    ensures
        match r {
            Result::Ok(body) => match body {
                Option::Some(seg) => raw_body@.len() > 0 && node_built(
                    raw_body@,
                    disk_info@.len() as int,
                    0,
                    no_row_visited(raw_body@.len() as int),
                    *seg,
                ) && dfs_list(
                    raw_body@,
                    seq![0],
                    no_row_visited(raw_body@.len() as int),
                ) is Some,
                Option::None => raw_body@.len() == 0,
            },
            Result::Err(_) => raw_body@.len() > 0 && dfs_list(
                raw_body@,
                seq![0],
                no_row_visited(raw_body@.len() as int),
            ) is None,
        },
{
    let n = raw_body.len();
    if n == 0 {
        return Ok(None);
    }
    let mut visited: Vec<bool> = Vec::new();
    while visited.len() < n
        invariant
            visited@.len() <= n,
            forall|i: int| 0 <= i < visited@.len() ==> visited@[i] == false,
        decreases n - visited@.len(),
    {
        visited.push(false);
    }
    proof {
        assert(visited@ =~= no_row_visited(raw_body@.len() as int));
    }
    match build_node(raw_body, disk_info.len(), 0, &mut visited) {
        Ok(b) => Ok(Some(b)),
        Err(e) => Err(e),
    }
}

} // verus!
