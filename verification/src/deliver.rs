//! The Maildir delivery protocol.
//!
//! A delivery alternates between work on the file system and decisions.
//! The decisions are made here, by a state machine: it asks for one
//! operation at a time, and is told how the operation went. Whoever drives
//! it performs the operations, on `tmp/`, `new/` and `cur/` under the
//! Maildir of its choice.

use vstd::prelude::*;
use crate::filename::{EmailFilenameGenerator, can_count, counted, filename};

verus! {

/// The method to use to try to guarantee durable delivery.
#[derive(Debug, Clone, Copy, PartialEq, Eq, Structural)]
pub enum DeliveryDurability {
    /// Sync both the file and the directories. This is the default.
    FileAndDirSync,
    /// Sync the file only. This may be much faster, but on some file systems
    /// it does not make the delivery durable.
    FileSyncOnly,
}

/// A directory of a Maildir.
#[derive(Debug, Clone, Copy, PartialEq, Eq, Structural)]
pub enum Subdir {
    /// Where a message is written.
    Tmp,
    /// Where a delivered message appears.
    New,
    /// Where a mail reader keeps the messages it has seen.
    Cur,
}

impl Subdir {
    /// The name of the directory.
    pub fn name(&self) -> (name: &'static str)
        ensures
            name@ == match *self {
                Subdir::Tmp => "tmp"@,
                Subdir::New => "new"@,
                Subdir::Cur => "cur"@,
            },
    {
        match self {
            Subdir::Tmp => "tmp",
            Subdir::New => "new",
            Subdir::Cur => "cur",
        }
    }
}

/// Why a delivery failed.
#[derive(Debug)]
pub enum DeliveryError<E> {
    /// An operation on the file system failed.
    Io(E),
    /// The generator could make no further file name.
    NoFilename,
    /// The machine was told of something that it had not asked for.
    OutOfTurn,
}

/// How the hard link of a written message into `new/` went.
#[derive(Debug)]
pub enum LinkOutcome<E> {
    /// The link stands.
    Linked,
    /// A file of that name stood there already.
    Exists,
    /// The link failed for another reason.
    Failed(E),
}

/// What the machine asks for next. A file name in `tmp/` or `new/` is the
/// current candidate of the delivery.
#[derive(Debug)]
pub enum Action<E> {
    /// Create `tmp/`, `new/` and `cur/` where they are missing.
    CreateDirs,
    /// Read the clock and the process id, and report them.
    ReadClock,
    /// Create the candidate in `tmp/`, failing where it exists, for
    /// synchronous writing.
    CreateTmp,
    /// Write the raw message to the file created.
    WriteTmp,
    /// Hard-link the candidate from `tmp/` into `new/`.
    LinkTmpToNew,
    /// Hard-link the file of the earlier delivery to the candidate in `new/`.
    LinkRecordedToNew,
    /// Remove the candidate from `tmp/`.
    RemoveTmp,
    /// Sync the directory.
    SyncDir(Subdir),
    /// The message stands in `new/` under the candidate's name. `written`
    /// says whether it was written anew, and so is to be recorded as the
    /// file to link later deliveries to.
    Delivered { written: bool },
    /// The delivery failed.
    Failed(DeliveryError<E>),
}

/// What the machine is told.
#[derive(Debug)]
pub enum Event<E> {
    /// The time in seconds since the epoch, and the process id.
    Clock { unix_time: u64, pid: u32 },
    /// The operation asked for was done.
    Done,
    /// The operation asked for failed; `already_exists` says whether it
    /// failed because the file to create was there already.
    Failed { error: E, already_exists: bool },
}

/// What the machine waits for.
#[derive(Debug)]
pub enum Stage<E> {
    /// The directories.
    Dirs,
    /// The clock, for the name of a hard link to the earlier delivery.
    LinkClock,
    /// The hard link to the earlier delivery.
    Linking,
    /// The sync of `new/` after the hard link to the earlier delivery.
    LinkSync,
    /// The clock, for the name of a file to write.
    WriteClock,
    /// The creation of the file in `tmp/`.
    Creating,
    /// The writing of the file in `tmp/`.
    Writing,
    /// The hard link from `tmp/` into `new/`.
    LinkingTmp,
    /// The removal of the file in `tmp/`, after the link went as given.
    Removing(LinkOutcome<E>),
    /// The sync of `new/`.
    SyncNew,
    /// The sync of `tmp/`.
    SyncTmp,
    /// Nothing: the delivery has ended.
    Finished,
}

/// Whether the machine draws a file name on the event: it waits for the
/// clock and is told the time.
pub open spec fn draws_name<E>(stage: Stage<E>, event: Event<E>) -> bool {
    (stage is LinkClock || stage is WriteClock) && event is Clock
}

/// The decision of the machine: the stage it moves to and what it asks for.
///
/// `durability` is the durability asked of the delivery. `named` says, for
/// an event on which a file name is drawn, whether the generator gave one.
pub open spec fn transition<E>(
    stage: Stage<E>,
    durability: DeliveryDurability,
    event: Event<E>,
    named: bool,
    relink: bool,
) -> (Stage<E>, Action<E>) {
    match (stage, event) {
        (Stage::Dirs, Event::Done) => if relink {
            (Stage::LinkClock, Action::ReadClock)
        } else {
            (Stage::WriteClock, Action::ReadClock)
        },
        (Stage::Dirs, Event::Failed { error, already_exists }) => (
            Stage::Finished,
            Action::Failed(DeliveryError::Io(error)),
        ),
        (Stage::LinkClock, Event::Clock { unix_time, pid }) => if named {
            (Stage::Linking, Action::LinkRecordedToNew)
        } else {
            (Stage::WriteClock, Action::ReadClock)
        },
        (Stage::Linking, Event::Done) => if durability == DeliveryDurability::FileAndDirSync {
            (Stage::LinkSync, Action::SyncDir(Subdir::New))
        } else {
            (Stage::Finished, Action::Delivered { written: false })
        },
        (Stage::Linking, Event::Failed { error, already_exists }) => if already_exists {
            (Stage::LinkClock, Action::ReadClock)
        } else {
            (Stage::WriteClock, Action::ReadClock)
        },
        (Stage::LinkSync, Event::Done) => (Stage::Finished, Action::Delivered { written: false }),
        (Stage::LinkSync, Event::Failed { error, already_exists }) => (
            Stage::WriteClock,
            Action::ReadClock,
        ),
        (Stage::WriteClock, Event::Clock { unix_time, pid }) => if named {
            (Stage::Creating, Action::CreateTmp)
        } else {
            (Stage::Finished, Action::Failed(DeliveryError::NoFilename))
        },
        (Stage::Creating, Event::Done) => (Stage::Writing, Action::WriteTmp),
        (Stage::Creating, Event::Failed { error, already_exists }) => if already_exists {
            (Stage::WriteClock, Action::ReadClock)
        } else {
            (Stage::Finished, Action::Failed(DeliveryError::Io(error)))
        },
        (Stage::Writing, Event::Done) => (Stage::LinkingTmp, Action::LinkTmpToNew),
        (Stage::Writing, Event::Failed { error, already_exists }) => (
            Stage::Finished,
            Action::Failed(DeliveryError::Io(error)),
        ),
        (Stage::LinkingTmp, Event::Done) => (
            Stage::Removing(LinkOutcome::Linked),
            Action::RemoveTmp,
        ),
        (Stage::LinkingTmp, Event::Failed { error, already_exists }) => if already_exists {
            (Stage::Removing(LinkOutcome::Exists), Action::RemoveTmp)
        } else {
            (Stage::Removing(LinkOutcome::Failed(error)), Action::RemoveTmp)
        },
        (Stage::Removing(link), Event::Done) => match link {
            LinkOutcome::Linked => if durability == DeliveryDurability::FileAndDirSync {
                (Stage::SyncNew, Action::SyncDir(Subdir::New))
            } else {
                (Stage::Finished, Action::Delivered { written: true })
            },
            LinkOutcome::Exists => (Stage::WriteClock, Action::ReadClock),
            LinkOutcome::Failed(error) => (
                Stage::Finished,
                Action::Failed(DeliveryError::Io(error)),
            ),
        },
        (Stage::Removing(link), Event::Failed { error, already_exists }) => (
            Stage::Finished,
            Action::Failed(DeliveryError::Io(error)),
        ),
        (Stage::SyncNew, Event::Done) => (Stage::SyncTmp, Action::SyncDir(Subdir::Tmp)),
        (Stage::SyncNew, Event::Failed { error, already_exists }) => (
            Stage::Finished,
            Action::Failed(DeliveryError::Io(error)),
        ),
        (Stage::SyncTmp, Event::Done) => (Stage::Finished, Action::Delivered { written: true }),
        (Stage::SyncTmp, Event::Failed { error, already_exists }) => (
            Stage::Finished,
            Action::Failed(DeliveryError::Io(error)),
        ),
        _ => (Stage::Finished, Action::Failed(DeliveryError::OutOfTurn)),
    }
}

/// Whether an event tells of a collision: the file to create was there
/// already.
pub open spec fn is_collision<E>(event: Event<E>) -> bool {
    event matches Event::Failed { error, already_exists } && already_exists
}

/// Whether an event is one that a run brings in which nothing goes wrong
/// but collisions of file names: the time is told when the machine waits
/// for it, and a name can be made; an operation is done; or a file or a
/// link that the machine asked to be made stood there already.
pub open spec fn is_untroubled<E>(stage: Stage<E>, event: Event<E>, named: bool) -> bool {
    match stage {
        Stage::LinkClock | Stage::WriteClock => event is Clock && named,
        Stage::Linking | Stage::Creating | Stage::LinkingTmp => event is Done || is_collision(
            event,
        ),
        Stage::Finished => false,
        _ => event is Done,
    }
}

/// The number of files that a delivery has put into `new/`, after one more
/// event: a hard link that was made adds one.
pub open spec fn links_after<E>(stage: Stage<E>, event: Event<E>, links: nat) -> nat {
    if (stage is Linking || stage is LinkingTmp) && event is Done {
        links + 1
    } else {
        links
    }
}

/// What holds of the number of files put into `new/` while a delivery is
/// under way: one once the link stands, none before.
pub open spec fn links_match_stage<E>(stage: Stage<E>, links: nat) -> bool {
    match stage {
        Stage::LinkSync | Stage::SyncNew | Stage::SyncTmp => links == 1,
        Stage::Removing(link) => match link {
            LinkOutcome::Linked => links == 1,
            LinkOutcome::Exists => links == 0,
            LinkOutcome::Failed(_) => false,
        },
        Stage::Finished => false,
        _ => links == 0,
    }
}

/// A collision of file names neither loses a message nor doubles it.
///
/// In a run in which nothing goes wrong but collisions, the machine never
/// gives up; on a collision it puts nothing into `new/` and goes on to
/// draw another name (after the removal of the file in `tmp/`, where it
/// wrote one); and when it reports the message delivered, exactly one file
/// was put into `new/`.
pub proof fn lemma_collisions_lose_and_double_nothing<E>(
    stage: Stage<E>,
    durability: DeliveryDurability,
    event: Event<E>,
    named: bool,
    relink: bool,
    links: nat,
)
    requires
        links_match_stage(stage, links),
        is_untroubled(stage, event, named),
    ensures
        !(transition(stage, durability, event, named, relink).1 is Failed),
        transition(stage, durability, event, named, relink).1 is Delivered ==> links_after(
            stage,
            event,
            links,
        ) == 1,
        !(transition(stage, durability, event, named, relink).1 is Delivered)
            ==> links_match_stage(
            transition(stage, durability, event, named, relink).0,
            links_after(stage, event, links),
        ),
        is_collision(event) ==> links_after(stage, event, links) == links && (transition(
            stage,
            durability,
            event,
            named,
            relink,
        ).1 is ReadClock || transition(stage, durability, event, named, relink).1 is RemoveTmp),
        stage matches Stage::Removing(LinkOutcome::Exists) ==> transition(
            stage,
            durability,
            event,
            named,
            relink,
        ).1 is ReadClock,
{
}

/// A delivery of one message into one Maildir, as far as it has come.
pub struct Delivery<E> {
    stage: Stage<E>,
    durability: DeliveryDurability,
    relink: bool,
    name: String,
}

/// A delivery as mathematical values.
pub ghost struct DeliveryView<E> {
    /// What the machine waits for.
    pub stage: Stage<E>,
    /// The durability asked for.
    pub durability: DeliveryDurability,
    /// Whether the message was delivered before, so that a hard link to
    /// that delivery is tried first.
    pub relink: bool,
    /// The candidate file name.
    pub name: Seq<char>,
}

impl<E> View for Delivery<E> {
    type V = DeliveryView<E>;

    closed spec fn view(&self) -> DeliveryView<E> {
        DeliveryView {
            stage: self.stage,
            durability: self.durability,
            relink: self.relink,
            name: self.name@,
        }
    }
}

impl<E> Delivery<E> {
    /// Starts a delivery. `relink` says whether the message was delivered
    /// before. The first thing to do is to create the directories.
    pub fn begin(durability: DeliveryDurability, relink: bool) -> (r: (Delivery<E>, Action<E>))
        ensures
            r.0@ == (DeliveryView {
                stage: Stage::<E>::Dirs,
                durability,
                relink,
                name: Seq::<char>::empty(),
            }),
            r.1 == Action::<E>::CreateDirs,
    {
        (Delivery { stage: Stage::Dirs, durability, relink, name: String::new() }, Action::CreateDirs)
    }

    /// Starts a delivery into a Maildir whose directories stand, by writing
    /// the message. The first thing to do is to read the clock.
    pub fn by_write(durability: DeliveryDurability) -> (r: (Delivery<E>, Action<E>))
        ensures
            r.0@ == (DeliveryView {
                stage: Stage::<E>::WriteClock,
                durability,
                relink: false,
                name: Seq::<char>::empty(),
            }),
            r.1 == Action::<E>::ReadClock,
    {
        (
            Delivery { stage: Stage::WriteClock, durability, relink: false, name: String::new() },
            Action::ReadClock,
        )
    }

    /// Starts a delivery into a Maildir whose directories stand, by a hard
    /// link to the file of an earlier delivery. The first thing to do is to
    /// read the clock. Where the link cannot be made, the machine goes over
    /// to writing the message.
    pub fn by_hard_link(durability: DeliveryDurability) -> (r: (Delivery<E>, Action<E>))
        ensures
            r.0@ == (DeliveryView {
                stage: Stage::<E>::LinkClock,
                durability,
                relink: true,
                name: Seq::<char>::empty(),
            }),
            r.1 == Action::<E>::ReadClock,
    {
        (
            Delivery { stage: Stage::LinkClock, durability, relink: true, name: String::new() },
            Action::ReadClock,
        )
    }

    /// What the machine waits for.
    pub fn stage(&self) -> (stage: &Stage<E>)
        ensures
            *stage == self@.stage,
    {
        &self.stage
    }

    /// Whether the machine is about the hard link to an earlier delivery:
    /// it has not gone over to writing the message, nor ended.
    pub fn is_linking(&self) -> (r: bool)
        ensures
            r == (self@.stage is LinkClock || self@.stage is Linking || self@.stage is LinkSync),
    {
        match &self.stage {
            Stage::LinkClock => true,
            Stage::Linking => true,
            Stage::LinkSync => true,
            _ => false,
        }
    }

    /// The candidate file name.
    pub fn name(&self) -> (name: &str)
        ensures
            name@ == self@.name,
    {
        self.name.as_str()
    }

    /// Whether the delivery has ended.
    pub fn is_finished(&self) -> (r: bool)
        ensures
            r == (self@.stage is Finished),
    {
        match &self.stage {
            Stage::Finished => true,
            _ => false,
        }
    }

    /// Tells the machine how the operation it asked for went, and learns
    /// what it asks for next.
    ///
    /// Where it is told the time while it waits for the clock, it draws the
    /// next file name from the generator, and that name is the candidate
    /// from then on. On every other event the generator stays as it is.
    pub fn step(&mut self, generator: &mut EmailFilenameGenerator, event: Event<E>) -> (action:
        Action<E>)
        ensures
            final(self)@.durability == old(self)@.durability,
            final(self)@.relink == old(self)@.relink,
            (final(self)@.stage, action) == transition(
                old(self)@.stage,
                old(self)@.durability,
                event,
                event matches Event::Clock { unix_time, pid } && can_count(
                    old(generator)@,
                    unix_time,
                ),
                old(self)@.relink,
            ),
            match event {
                Event::Clock { unix_time, pid } => if draws_name(old(self)@.stage, event)
                    && can_count(old(generator)@, unix_time) {
                    final(generator)@ == counted(old(generator)@, unix_time) && final(self)@.name
                        == filename(
                        unix_time,
                        pid,
                        final(generator)@.count as usize,
                        final(generator)@.hostname,
                    )
                } else {
                    final(generator)@ == old(generator)@ && final(self)@.name == old(self)@.name
                },
                _ => final(generator)@ == old(generator)@ && final(self)@.name == old(self)@.name,
            },
    {
        let mut stage: Stage<E> = Stage::Finished;
        std::mem::swap(&mut stage, &mut self.stage);
        let sync: bool = match self.durability {
            DeliveryDurability::FileAndDirSync => true,
            DeliveryDurability::FileSyncOnly => false,
        };
        let (next, action): (Stage<E>, Action<E>) = match (stage, event) {
            (Stage::Dirs, Event::Done) => {
                if self.relink {
                    (Stage::LinkClock, Action::ReadClock)
                } else {
                    (Stage::WriteClock, Action::ReadClock)
                }
            },
            (Stage::Dirs, Event::Failed { error, already_exists }) => (
                Stage::Finished,
                Action::Failed(DeliveryError::Io(error)),
            ),
            (Stage::LinkClock, Event::Clock { unix_time, pid }) => {
                match generator.next(unix_time, pid) {
                    Some(name) => {
                        self.name = name;
                        (Stage::Linking, Action::LinkRecordedToNew)
                    },
                    None => (Stage::WriteClock, Action::ReadClock),
                }
            },
            (Stage::Linking, Event::Done) => {
                if sync {
                    (Stage::LinkSync, Action::SyncDir(Subdir::New))
                } else {
                    (Stage::Finished, Action::Delivered { written: false })
                }
            },
            (Stage::Linking, Event::Failed { error, already_exists }) => {
                if already_exists {
                    (Stage::LinkClock, Action::ReadClock)
                } else {
                    (Stage::WriteClock, Action::ReadClock)
                }
            },
            (Stage::LinkSync, Event::Done) => (
                Stage::Finished,
                Action::Delivered { written: false },
            ),
            (Stage::LinkSync, Event::Failed { error, already_exists }) => (
                Stage::WriteClock,
                Action::ReadClock,
            ),
            (Stage::WriteClock, Event::Clock { unix_time, pid }) => {
                match generator.next(unix_time, pid) {
                    Some(name) => {
                        self.name = name;
                        (Stage::Creating, Action::CreateTmp)
                    },
                    None => (Stage::Finished, Action::Failed(DeliveryError::NoFilename)),
                }
            },
            (Stage::Creating, Event::Done) => (Stage::Writing, Action::WriteTmp),
            (Stage::Creating, Event::Failed { error, already_exists }) => {
                if already_exists {
                    (Stage::WriteClock, Action::ReadClock)
                } else {
                    (Stage::Finished, Action::Failed(DeliveryError::Io(error)))
                }
            },
            (Stage::Writing, Event::Done) => (Stage::LinkingTmp, Action::LinkTmpToNew),
            (Stage::Writing, Event::Failed { error, already_exists }) => (
                Stage::Finished,
                Action::Failed(DeliveryError::Io(error)),
            ),
            (Stage::LinkingTmp, Event::Done) => (
                Stage::Removing(LinkOutcome::Linked),
                Action::RemoveTmp,
            ),
            (Stage::LinkingTmp, Event::Failed { error, already_exists }) => {
                if already_exists {
                    (Stage::Removing(LinkOutcome::Exists), Action::RemoveTmp)
                } else {
                    (Stage::Removing(LinkOutcome::Failed(error)), Action::RemoveTmp)
                }
            },
            (Stage::Removing(link), Event::Done) => {
                match link {
                    LinkOutcome::Linked => {
                        if sync {
                            (Stage::SyncNew, Action::SyncDir(Subdir::New))
                        } else {
                            (Stage::Finished, Action::Delivered { written: true })
                        }
                    },
                    LinkOutcome::Exists => (Stage::WriteClock, Action::ReadClock),
                    LinkOutcome::Failed(error) => (
                        Stage::Finished,
                        Action::Failed(DeliveryError::Io(error)),
                    ),
                }
            },
            (Stage::Removing(link), Event::Failed { error, already_exists }) => (
                Stage::Finished,
                Action::Failed(DeliveryError::Io(error)),
            ),
            (Stage::SyncNew, Event::Done) => (Stage::SyncTmp, Action::SyncDir(Subdir::Tmp)),
            (Stage::SyncNew, Event::Failed { error, already_exists }) => (
                Stage::Finished,
                Action::Failed(DeliveryError::Io(error)),
            ),
            (Stage::SyncTmp, Event::Done) => (
                Stage::Finished,
                Action::Delivered { written: true },
            ),
            (Stage::SyncTmp, Event::Failed { error, already_exists }) => (
                Stage::Finished,
                Action::Failed(DeliveryError::Io(error)),
            ),
            _ => (Stage::Finished, Action::Failed(DeliveryError::OutOfTurn)),
        };
        self.stage = next;
        action
    }
}

} // verus!
