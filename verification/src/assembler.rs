//! The disk-image assembly pipeline as a state machine.
//!
//! Assembly sequences external resources — a staging directory, a sparse
//! file, a loop device, a mount point — that must be acquired and released in
//! strict order even on failure. The machine decides; the surrounding binary
//! performs each requested action on the host and reports how it went. On a
//! failure once the loop device is bound, the machine still requests unmount
//! and detach before it reports the error, and a teardown failure is carried
//! alongside the original error, never in its place.

use vstd::prelude::*;
use crate::errors::Error;
use crate::kv::clone_string_vec;

verus! {

/// Bytes reserved on top of the doubled staged size, for partition metadata
/// and the bootloader.
pub const RESERVE_BYTES: u64 = 20 * 1024 * 1024;

/// The filesystem block size the image is rounded to.
pub const BLOCK_SIZE: u64 = 4096;

/// Where the single partition starts inside the image file.
pub const PARTITION_OFFSET: u64 = 1024 * 1024;

/// How many leading bytes of the raw file the bootloader is burned into.
pub const BOOT_PREFIX_BYTES: u64 = 440;

/// The staged size must leave the doubled size plus the reserve within range.
pub open spec fn staged_size_ok(staged: u64) -> bool {
    staged <= (u64::MAX - RESERVE_BYTES) / 2
}

/// The target image size: twice the staged content plus the reserve, rounded
/// down to whole blocks.
pub open spec fn image_size_spec(staged: u64) -> int {
    ((2 * staged + RESERVE_BYTES) / (BLOCK_SIZE as int)) * (BLOCK_SIZE as int)
}

/// The computed size fills whole blocks and strictly exceeds twice the
/// staged content.
pub proof fn lemma_image_size(staged: u64)
    requires
        0 < staged,
        staged_size_ok(staged),
    ensures
        image_size_spec(staged) % (BLOCK_SIZE as int) == 0,
        image_size_spec(staged) > 2 * staged,
        0 < image_size_spec(staged) <= u64::MAX,
{
    let t = 2 * (staged as int) + (RESERVE_BYTES as int);
    let b = BLOCK_SIZE as int;
    vstd::arithmetic::div_mod::lemma_fundamental_div_mod(t, b);
    vstd::arithmetic::div_mod::lemma_mod_multiples_basic(t / b, b);
    assert((t / b) * b == t - t % b);
}

/// The target size in bytes, or the error for empty staged content.
pub fn compute_image_size(staged: u64) -> (r: Result<u64, Error>)
    requires
        staged_size_ok(staged),
    ensures
        match r {
            Ok(s) => staged > 0 && s == image_size_spec(staged),
            Err(e) => e matches Error::EmptyImage && staged == 0,
        },
{
    if staged == 0 {
        return Err(Error::EmptyImage);
    }
    proof {
        lemma_image_size(staged);
    }
    let doubled = 2 * staged + RESERVE_BYTES;
    Ok((doubled / BLOCK_SIZE) * BLOCK_SIZE)
}

/// The pipeline position: which action is in flight, or how it ended.
#[derive(Debug, PartialEq, Eq, Structural, Clone, Copy)]
pub enum AsmStep {
    /// Decompressing the layers onto the staging directory.
    Staging,
    /// Creating the zero-filled sparse file.
    Allocating,
    /// Writing the partition table.
    Partitioning,
    /// Binding the file to a loop device.
    Attaching,
    /// Re-binding the loop device at the partition offset.
    Rebinding,
    /// Creating the filesystem.
    Formatting,
    /// Mounting at the temporary mount point.
    Mounting,
    /// Copying the staged content into the mount point.
    Copying,
    /// Copying the bootloader out of the mount point.
    Extracting,
    /// Unmounting on the normal path.
    Unmounting,
    /// Detaching the loop device on the normal path.
    Detaching,
    /// Burning the bootloader into the file prefix.
    Burning,
    /// Unmounting while tearing down after a failure.
    CleanupUnmounting,
    /// Detaching while tearing down after a failure.
    CleanupDetaching,
    /// The image is complete.
    Done,
    /// Assembly failed and every acquired resource was released or given up.
    Failed,
}

/// What the driver is asked to do next on the host.
#[derive(Debug)]
pub enum AsmAction {
    /// Decompress the layers, in order, onto a fresh staging directory, and
    /// report the staged size.
    StageLayers,
    /// Remove any file at the destination and create a zero-filled sparse
    /// file of this many whole blocks.
    AllocateFile(u64),
    /// Write a partition table with one bootable partition spanning the file.
    WritePartitionTable,
    /// Bind the destination file to a free loop device.
    AttachLoopDevice,
    /// Re-bind the loop device at this byte offset.
    RebindAtOffset(u64),
    /// Create the filesystem on the re-bound device.
    FormatFilesystem,
    /// Mount the device at a fresh temporary mount point.
    MountFilesystem,
    /// Copy the staged content into the mount point, preserving permissions,
    /// ownership and symlinks.
    CopyStagedContent,
    /// Copy the bootloader out of the mount point, for use after unmount.
    ExtractBootloader,
    /// Unmount the temporary mount point.
    UnmountFilesystem,
    /// Detach the loop device.
    DetachLoopDevice,
    /// Write the extracted bootloader into the fixed-size prefix of the raw
    /// file, without truncating it.
    BurnBootloader,
}

/// How the requested action went on the host.
#[derive(Debug)]
pub enum AsmEvent {
    /// The action succeeded.
    Success,
    /// Staging succeeded; this many bytes were staged.
    StagedSize(u64),
    /// The action failed; carries the captured output or message.
    Failure(String),
}

/// Assembly failed: the error that caused it, and what the teardown itself
/// reported while releasing resources.
#[derive(Debug)]
pub struct AsmFailure {
    pub error: Error,
    pub teardown_failures: Vec<String>,
}

/// What the machine answers: a next action, the finished size, or a failure.
#[derive(Debug)]
pub enum AsmOutcome {
    Continue(AsmAction),
    Done(u64),
    Failed(AsmFailure),
}

/// The assembler: the position of the pipeline, the computed size, and —
/// while tearing down — the original error and the teardown reports.
pub struct Assembler {
    pub step: AsmStep,
    pub size: u64,
    pub staged: Ghost<u64>,
    pub failure: Option<Error>,
    pub teardown_failures: Vec<String>,
}

impl Assembler {
    /// The machine is in a sound position.
    pub open spec fn inv(self) -> bool {
        &&& (self.step == AsmStep::CleanupUnmounting || self.step == AsmStep::CleanupDetaching)
            <==> self.failure is Some
        &&& (self.step != AsmStep::Staging && self.step != AsmStep::Done && self.step
            != AsmStep::Failed) ==> {
            &&& 0 < self.staged@
            &&& staged_size_ok(self.staged@)
            &&& self.size == image_size_spec(self.staged@)
        }
    }

    /// The machine still waits for an event.
    pub open spec fn running(self) -> bool {
        self.step != AsmStep::Done && self.step != AsmStep::Failed
    }

    /// Which events the current position accepts.
    pub open spec fn accepts(self, ev: AsmEvent) -> bool {
        if self.step == AsmStep::Staging {
            ev is StagedSize || ev is Failure
        } else {
            ev is Success || ev is Failure
        }
    }

    /// A fresh machine; the driver's first task is staging.
    pub fn start() -> (r: (Assembler, AsmAction))
        ensures
            r.0.step == AsmStep::Staging,
            r.0.inv(),
            r.0.running(),
            r.0.teardown_failures@.len() == 0,
            r.1 is StageLayers,
    {
        (
            Assembler {
                step: AsmStep::Staging,
                size: 0,
                staged: Ghost(0),
                failure: None,
                teardown_failures: Vec::new(),
            },
            AsmAction::StageLayers,
        )
    }

    /// Feeds the machine the result of the last action and takes the next
    /// instruction. The whole pipeline, teardown included, is the relation
    /// `transition`.
    pub fn step(&mut self, ev: AsmEvent) -> (r: AsmOutcome)
        requires
            old(self).inv(),
            old(self).running(),
            old(self).accepts(ev),
            ev matches AsmEvent::StagedSize(b) ==> staged_size_ok(b),
        ensures
            final(self).inv(),
            transition(*old(self), ev, *final(self), r),
    {
        match ev {
            AsmEvent::StagedSize(b) => {
                match compute_image_size(b) {
                    Ok(size) => {
                        self.step = AsmStep::Allocating;
                        self.size = size;
                        proof {
                            self.staged@ = b;
                        }
                        AsmOutcome::Continue(AsmAction::AllocateFile(size / BLOCK_SIZE))
                    },
                    Err(e) => {
                        self.step = AsmStep::Failed;
                        AsmOutcome::Failed(
                            AsmFailure { error: e, teardown_failures: Vec::new() },
                        )
                    },
                }
            },
            AsmEvent::Success => {
                match self.step {
                    AsmStep::Allocating => {
                        self.step = AsmStep::Partitioning;
                        AsmOutcome::Continue(AsmAction::WritePartitionTable)
                    },
                    AsmStep::Partitioning => {
                        self.step = AsmStep::Attaching;
                        AsmOutcome::Continue(AsmAction::AttachLoopDevice)
                    },
                    AsmStep::Attaching => {
                        self.step = AsmStep::Rebinding;
                        AsmOutcome::Continue(AsmAction::RebindAtOffset(PARTITION_OFFSET))
                    },
                    AsmStep::Rebinding => {
                        self.step = AsmStep::Formatting;
                        AsmOutcome::Continue(AsmAction::FormatFilesystem)
                    },
                    AsmStep::Formatting => {
                        self.step = AsmStep::Mounting;
                        AsmOutcome::Continue(AsmAction::MountFilesystem)
                    },
                    AsmStep::Mounting => {
                        self.step = AsmStep::Copying;
                        AsmOutcome::Continue(AsmAction::CopyStagedContent)
                    },
                    AsmStep::Copying => {
                        self.step = AsmStep::Extracting;
                        AsmOutcome::Continue(AsmAction::ExtractBootloader)
                    },
                    AsmStep::Extracting => {
                        self.step = AsmStep::Unmounting;
                        AsmOutcome::Continue(AsmAction::UnmountFilesystem)
                    },
                    AsmStep::Unmounting => {
                        self.step = AsmStep::Detaching;
                        AsmOutcome::Continue(AsmAction::DetachLoopDevice)
                    },
                    AsmStep::Detaching => {
                        self.step = AsmStep::Burning;
                        AsmOutcome::Continue(AsmAction::BurnBootloader)
                    },
                    AsmStep::Burning => {
                        self.step = AsmStep::Done;
                        AsmOutcome::Done(self.size)
                    },
                    AsmStep::CleanupUnmounting => {
                        self.step = AsmStep::CleanupDetaching;
                        AsmOutcome::Continue(AsmAction::DetachLoopDevice)
                    },
                    AsmStep::CleanupDetaching => {
                        self.step = AsmStep::Failed;
                        let error = match &self.failure {
                            Some(e) => e.clone(),
                            None => {
                                proof {
                                    assert(false);
                                }
                                Error::EmptyImage
                            },
                        };
                        self.failure = None;
                        AsmOutcome::Failed(
                            AsmFailure {
                                error,
                                teardown_failures: clone_string_vec(&self.teardown_failures),
                            },
                        )
                    },
                    _ => {
                        proof {
                            assert(false);
                        }
                        AsmOutcome::Done(0)
                    },
                }
            },
            AsmEvent::Failure(m) => {
                match self.step {
                    AsmStep::Staging => {
                        self.step = AsmStep::Failed;
                        AsmOutcome::Failed(
                            AsmFailure {
                                error: Error::IOError(m),
                                teardown_failures: Vec::new(),
                            },
                        )
                    },
                    AsmStep::Allocating | AsmStep::Partitioning | AsmStep::Attaching => {
                        self.step = AsmStep::Failed;
                        AsmOutcome::Failed(
                            AsmFailure {
                                error: Error::ResourceError(m),
                                teardown_failures: Vec::new(),
                            },
                        )
                    },
                    AsmStep::Rebinding | AsmStep::Formatting | AsmStep::Mounting
                        | AsmStep::Unmounting => {
                        self.step = AsmStep::CleanupDetaching;
                        self.failure = Some(Error::ResourceError(m));
                        AsmOutcome::Continue(AsmAction::DetachLoopDevice)
                    },
                    AsmStep::Copying => {
                        self.step = AsmStep::CleanupUnmounting;
                        self.failure = Some(Error::IOError(m));
                        AsmOutcome::Continue(AsmAction::UnmountFilesystem)
                    },
                    AsmStep::Extracting => {
                        self.step = AsmStep::CleanupUnmounting;
                        self.failure = Some(Error::ResourceError(m));
                        AsmOutcome::Continue(AsmAction::UnmountFilesystem)
                    },
                    AsmStep::Detaching | AsmStep::Burning => {
                        self.step = AsmStep::Failed;
                        AsmOutcome::Failed(
                            AsmFailure {
                                error: Error::ResourceError(m),
                                teardown_failures: Vec::new(),
                            },
                        )
                    },
                    AsmStep::CleanupUnmounting => {
                        self.step = AsmStep::CleanupDetaching;
                        self.teardown_failures.push(m);
                        AsmOutcome::Continue(AsmAction::DetachLoopDevice)
                    },
                    AsmStep::CleanupDetaching => {
                        self.step = AsmStep::Failed;
                        self.teardown_failures.push(m);
                        let error = match &self.failure {
                            Some(e) => e.clone(),
                            None => {
                                proof {
                                    assert(false);
                                }
                                Error::EmptyImage
                            },
                        };
                        self.failure = None;
                        AsmOutcome::Failed(
                            AsmFailure {
                                error,
                                teardown_failures: clone_string_vec(&self.teardown_failures),
                            },
                        )
                    },
                    _ => {
                        proof {
                            assert(false);
                        }
                        AsmOutcome::Done(0)
                    },
                }
            },
        }
    }
}

/// The transition relation of the pipeline: for each position and event, the
/// next position and the machine's answer.
pub open spec fn transition(pre: Assembler, ev: AsmEvent, post: Assembler, r: AsmOutcome) -> bool {
    match ev {
        AsmEvent::StagedSize(b) => pre.step == AsmStep::Staging && if b == 0 {
            &&& post.step == AsmStep::Failed
            &&& r matches AsmOutcome::Failed(f) && f.error is EmptyImage
                && f.teardown_failures@.len() == 0
        } else {
            &&& post.step == AsmStep::Allocating
            &&& post.staged@ == b
            &&& post.size == image_size_spec(b)
            &&& post.failure == pre.failure
            &&& post.teardown_failures@ == pre.teardown_failures@
            &&& r == AsmOutcome::Continue(AsmAction::AllocateFile((post.size / BLOCK_SIZE) as u64))
        },
        AsmEvent::Success => match pre.step {
            AsmStep::Allocating => post == Assembler { step: AsmStep::Partitioning, ..pre } && r
                == AsmOutcome::Continue(AsmAction::WritePartitionTable),
            AsmStep::Partitioning => post == Assembler { step: AsmStep::Attaching, ..pre } && r
                == AsmOutcome::Continue(AsmAction::AttachLoopDevice),
            AsmStep::Attaching => post == Assembler { step: AsmStep::Rebinding, ..pre } && r
                == AsmOutcome::Continue(AsmAction::RebindAtOffset(PARTITION_OFFSET)),
            AsmStep::Rebinding => post == Assembler { step: AsmStep::Formatting, ..pre } && r
                == AsmOutcome::Continue(AsmAction::FormatFilesystem),
            AsmStep::Formatting => post == Assembler { step: AsmStep::Mounting, ..pre } && r
                == AsmOutcome::Continue(AsmAction::MountFilesystem),
            AsmStep::Mounting => post == Assembler { step: AsmStep::Copying, ..pre } && r
                == AsmOutcome::Continue(AsmAction::CopyStagedContent),
            AsmStep::Copying => post == Assembler { step: AsmStep::Extracting, ..pre } && r
                == AsmOutcome::Continue(AsmAction::ExtractBootloader),
            AsmStep::Extracting => post == Assembler { step: AsmStep::Unmounting, ..pre } && r
                == AsmOutcome::Continue(AsmAction::UnmountFilesystem),
            AsmStep::Unmounting => post == Assembler { step: AsmStep::Detaching, ..pre } && r
                == AsmOutcome::Continue(AsmAction::DetachLoopDevice),
            AsmStep::Detaching => post == Assembler { step: AsmStep::Burning, ..pre } && r
                == AsmOutcome::Continue(AsmAction::BurnBootloader),
            AsmStep::Burning => post == Assembler { step: AsmStep::Done, ..pre } && r
                == AsmOutcome::Done(pre.size),
            AsmStep::CleanupUnmounting => post == Assembler {
                step: AsmStep::CleanupDetaching,
                ..pre
            } && r == AsmOutcome::Continue(AsmAction::DetachLoopDevice),
            AsmStep::CleanupDetaching => {
                &&& post == Assembler { step: AsmStep::Failed, failure: None, ..pre }
                &&& r matches AsmOutcome::Failed(f) && Some(f.error) == pre.failure
                    && f.teardown_failures@ == pre.teardown_failures@
            },
            _ => false,
        },
        AsmEvent::Failure(m) => match pre.step {
            AsmStep::Staging => {
                &&& post.step == AsmStep::Failed
                &&& r matches AsmOutcome::Failed(f) && f.error == Error::IOError(m)
                    && f.teardown_failures@.len() == 0
            },
            AsmStep::Allocating | AsmStep::Partitioning | AsmStep::Attaching | AsmStep::Detaching
                | AsmStep::Burning => {
                &&& post.step == AsmStep::Failed
                &&& r matches AsmOutcome::Failed(f) && f.error == Error::ResourceError(m)
                    && f.teardown_failures@.len() == 0
            },
            AsmStep::Rebinding | AsmStep::Formatting | AsmStep::Mounting | AsmStep::Unmounting => {
                &&& post == Assembler {
                    step: AsmStep::CleanupDetaching,
                    failure: Some(Error::ResourceError(m)),
                    ..pre
                }
                &&& r == AsmOutcome::Continue(AsmAction::DetachLoopDevice)
            },
            AsmStep::Copying => {
                &&& post == Assembler {
                    step: AsmStep::CleanupUnmounting,
                    failure: Some(Error::IOError(m)),
                    ..pre
                }
                &&& r == AsmOutcome::Continue(AsmAction::UnmountFilesystem)
            },
            AsmStep::Extracting => {
                &&& post == Assembler {
                    step: AsmStep::CleanupUnmounting,
                    failure: Some(Error::ResourceError(m)),
                    ..pre
                }
                &&& r == AsmOutcome::Continue(AsmAction::UnmountFilesystem)
            },
            AsmStep::CleanupUnmounting => {
                &&& post.step == AsmStep::CleanupDetaching
                &&& post.failure == pre.failure
                &&& post.teardown_failures@ == pre.teardown_failures@.push(m)
                &&& post.size == pre.size
                &&& post.staged == pre.staged
                &&& r == AsmOutcome::Continue(AsmAction::DetachLoopDevice)
            },
            AsmStep::CleanupDetaching => {
                &&& post.step == AsmStep::Failed
                &&& r matches AsmOutcome::Failed(f) && Some(f.error) == pre.failure
                    && f.teardown_failures@ == pre.teardown_failures@.push(m)
            },
            _ => false,
        },
    }
}

/// Whatever failed, the reported error is the one that first broke the
/// pipeline; teardown reports ride along and never replace it.
pub proof fn lemma_teardown_keeps_error(pre: Assembler, ev: AsmEvent, post: Assembler, r: AsmOutcome)
    requires
        transition(pre, ev, post, r),
        pre.step == AsmStep::CleanupUnmounting || pre.step == AsmStep::CleanupDetaching,
        r is Failed,
    ensures
        r matches AsmOutcome::Failed(f) && Some(f.error) == pre.failure,
{
}

/// What `Done` reports: the size fills whole blocks and strictly exceeds
/// twice the staged content.
pub proof fn lemma_done_size(pre: Assembler, ev: AsmEvent, post: Assembler, r: AsmOutcome)
    requires
        pre.inv(),
        pre.step == AsmStep::Burning,
        transition(pre, ev, post, r),
        r is Done,
    ensures
        r matches AsmOutcome::Done(s) && s % BLOCK_SIZE == 0 && s > 2 * pre.staged@,
{
    lemma_image_size(pre.staged@);
}

} // verus!
