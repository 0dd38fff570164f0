use vstd::prelude::*;

use crate::cooked;
use crate::cooked::{dfs_list, no_row_visited, node_built, CycleError};
use crate::parse::Disk;
use crate::raw;

verus! {

/// The three raw tables a successful parse yields, in the order the input
/// holds them.
pub struct ModelConfig {
    pub disks: Vec<Disk>,
    pub disk_info: Vec<raw::DiskInformation>,
    pub body: Vec<raw::BodySegment>,
}

/// A parsed model: the disks, the resolved disk-information records, and the
/// body tree rebuilt from the flat table (absent when the table was empty).
#[derive(Debug)]
pub struct Model {
    pub disks: Vec<Disk>,
    pub disk_info: Vec<cooked::DiskInformation>,
    pub body: Option<Box<cooked::BodySegment>>,
}

/// Every reference a tree node makes into the disk-information list is in
/// range.
pub open spec fn seg_wf(seg: cooked::BodySegment, dlen: int) -> bool
    decreases seg,
{
    &&& (match seg.disk_info {
        Option::Some(i) => i < dlen,
        Option::None => true,
    })
    &&& (match seg.left {
        Option::Some(b) => seg_wf(*b, dlen),
        Option::None => true,
    })
    &&& (match seg.right {
        Option::Some(b) => seg_wf(*b, dlen),
        Option::None => true,
    })
}

/// A reconstructed node only references rows of the table it was built from,
/// so every disk-information index it holds is in range.
pub proof fn lemma_node_built_wf(
    raw_body: Seq<raw::BodySegment>,
    dlen: int,
    idx: int,
    visited: Seq<bool>,
    seg: cooked::BodySegment,
)
    requires
        node_built(raw_body, dlen, idx, visited, seg),
    ensures
        seg_wf(seg, dlen),
    decreases seg,
{
    let row = raw_body[idx];
    let v1 = visited.update(idx, true);
    match seg.left {
        Option::Some(b) => {
            lemma_node_built_wf(raw_body, dlen, row.left as int, v1, *b);
        },
        Option::None => {},
    }
    match (seg.right, if 0 <= row.left < raw_body.len() {
        dfs_list(raw_body, seq![row.left as int], v1)
    } else {
        Option::Some(v1)
    }) {
        (Option::Some(b), Option::Some(v2)) => {
            lemma_node_built_wf(raw_body, dlen, row.right as int, v2, *b);
        },
        _ => {},
    }
}

/// The model's internal invariant: resolved disk indices point into the disk
/// list, and the tree's disk-information indices point into the
/// disk-information list.
pub open spec fn model_wf(m: Model) -> bool {
    &&& (forall|i: int|
        0 <= i < m.disk_info@.len() ==> (match (#[trigger] m.disk_info@[i]).disk {
            Option::Some(d) => d < m.disks@.len(),
            Option::None => true,
        }))
    &&& (match m.body {
        Option::Some(seg) => seg_wf(*seg, m.disk_info@.len() as int),
        Option::None => true,
    })
}

impl Model {
    /// Cooks a parsed configuration: resolves every disk-information record
    /// against the disk list and rebuilds the body tree from row zero,
    /// failing when a table row is reached twice.
    pub fn new(config: ModelConfig) -> (r: Result<Model, CycleError>)
        ensures
            match r {
                Result::Ok(m) => {
                    &&& model_wf(m)
                    &&& m.disks@ == config.disks@
                    &&& m.disk_info@.len() == config.disk_info@.len()
                    &&& (forall|i: int|
                        0 <= i < config.disk_info@.len() ==> m.disk_info@[i]
                            == cooked::spec_from_raw(
                            config.disk_info@[i],
                            config.disks@.len() as int,
                        ))
                    &&& (match m.body {
                        Option::Some(seg) => config.body@.len() > 0 && node_built(
                            config.body@,
                            config.disk_info@.len() as int,
                            0,
                            no_row_visited(config.body@.len() as int),
                            *seg,
                        ) && dfs_list(
                            config.body@,
                            seq![0],
                            no_row_visited(config.body@.len() as int),
                        ) is Some,
                        Option::None => config.body@.len() == 0,
                    })
                },
                Result::Err(_) => config.body@.len() > 0 && dfs_list(
                    config.body@,
                    seq![0],
                    no_row_visited(config.body@.len() as int),
                ) is None,
            },
    {
        let ModelConfig { disks, disk_info: raw_disk_info, body: raw_body } = config;
        let mut disk_info: Vec<cooked::DiskInformation> = Vec::new();
        let mut i: usize = 0;
        while i < raw_disk_info.len()
            invariant
                0 <= i <= raw_disk_info@.len(),
                disk_info@.len() == i,
                forall|j: int|
                    0 <= j < i ==> disk_info@[j] == cooked::spec_from_raw(
                        raw_disk_info@[j],
                        disks@.len() as int,
                    ),
            decreases raw_disk_info@.len() - i,
        {
            let rec = raw_disk_info[i];
            disk_info.push(cooked::DiskInformation::from_raw(rec, disks.as_slice()));
            i = i + 1;
        }
        let body = match cooked::body_from_raw(&raw_body, &disk_info) {
            Ok(b) => b,
            Err(e) => {
                return Err(e);
            },
        };
        proof {
            match &body {
                Option::Some(seg) => {
                    lemma_node_built_wf(
                        raw_body@,
                        disk_info@.len() as int,
                        0,
                        no_row_visited(raw_body@.len() as int),
                        **seg,
                    );
                },
                Option::None => {},
            }
        }
        Ok(Model { disks, disk_info, body })
    }

    /// The root of the body tree, when the table held any row.
    pub fn body(&self) -> (r: Option<&cooked::BodySegment>)
        ensures
            match r {
                Option::Some(seg) => self.body is Some && *seg == *self.body->Some_0,
                Option::None => self.body is None,
            },
    {
        match &self.body {
            Some(b) => Some(&**b),
            None => None,
        }
    }

    /// The default cross-section size: the first disk's vertex count, or
    /// zero when there is no disk.
    pub fn disk_size(&self) -> (r: usize)
        ensures
            r as int == spec_disk_size(*self),
    {
        if self.disks.len() == 0 {
            0
        } else {
            self.disks[0].len()
        }
    }

    /// The parsed disks.
    pub fn disks(&self) -> (r: &Vec<Disk>)
        ensures
            r == &self.disks,
    {
        &self.disks
    }

    /// The resolved disk-information records.
    pub fn disk_info(&self) -> (r: &Vec<cooked::DiskInformation>)
        ensures
            r == &self.disk_info,
    {
        &self.disk_info
    }
}

/// The default cross-section size of a model.
pub open spec fn spec_disk_size(m: Model) -> int {
    if m.disks@.len() == 0 {
        0
    } else {
        m.disks@[0]@.len() as int
    }
}

} // verus!
