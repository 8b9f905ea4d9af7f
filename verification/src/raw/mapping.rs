//! Files mapped into memory.
//!
//! The operating system does the mapping. What is asked of it, in which order,
//! and what comes of its replies, is decided here: a [`Mapping`] or a
//! [`Backing`] says what to do next and takes the reply.

use vstd::prelude::*;

use crate::error::Error;
use crate::raw::id::Id;

verus! {

/// When the pages of a mapping are brought in.
#[derive(Clone, Copy, Debug, PartialEq, Eq, Structural)]
pub enum Populate {
    /// The page table is filled as the mapping is made.
    PageTable,
    /// The pages are touched once the mapping is made.
    Physical,
}

/// How a backend wants its files to be mapped.
#[derive(Clone, Copy, Debug, PartialEq, Eq, Structural)]
pub struct Backend {
    /// Whether mappings are bound to a node.
    pub numa: bool,
    /// When pages are brought in, if they are brought in ahead of use.
    pub populate: Option<Populate>,
}

/// A file that a backend has allocated.
#[derive(Clone, Copy, Debug, PartialEq, Eq, Structural)]
pub struct File {
    /// The flags that it is mapped with.
    pub flags: i32,
    /// Its descriptor.
    pub fd: i32,
    /// Where in it the memory begins.
    pub offset: i64,
    /// Whether it is new.
    pub clean: bool,
}

/// What mapped memory can be used for.
#[derive(Clone, Copy, Debug, PartialEq, Eq, Structural)]
pub enum Protection {
    /// Nothing: it only keeps addresses from being used otherwise.
    Inaccessible,
    /// Reading and writing.
    ReadWrite,
}

/// What is mapped.
#[derive(Clone, Copy, Debug, PartialEq, Eq, Structural)]
pub enum Source {
    /// No file. The mapping is anonymous and private.
    Anonymous,
    /// A file.
    File {
        /// The flags that it is mapped with.
        flags: i32,
        /// Its descriptor.
        fd: i32,
        /// Where in it the memory begins.
        offset: i64,
    },
}

/// A request to map memory.
#[derive(Clone, Copy, Debug, PartialEq, Eq, Structural)]
pub struct MapCall {
    /// Where to map it. The mapping goes there and nowhere else, in the place of
    /// what is mapped there. Without an address it goes anywhere.
    pub address: Option<u64>,
    /// How many bytes to map.
    pub size: u64,
    /// What the memory can be used for.
    pub protection: Protection,
    /// What to map.
    pub source: Source,
    /// Whether to fill the page table.
    pub populate: bool,
}

/// A request to unmap memory.
#[derive(Clone, Copy, Debug, PartialEq, Eq, Structural)]
pub struct UnmapCall {
    /// Where the memory begins.
    pub address: u64,
    /// How many bytes to unmap.
    pub size: u64,
}

/// What comes of a request to unmap memory that returned `code`. If it failed,
/// `errno` is the error code.
pub fn munmap(code: i32, errno: i32) -> (result: Result<(), Error>)
    ensures
        result == (if code == 0 {
            Ok::<(), Error>(())
        } else {
            Err(Error::Munmap(errno))
        }),
{
    match code {
        0 => Ok(()),
        _ => Err(Error::Munmap(errno)),
    }
}

/// What a mapping waits for.
#[derive(Clone, Copy, Debug, PartialEq, Eq)]
pub enum MapStep {
    /// Memory to be mapped.
    Mmap {
        /// The request.
        call: MapCall,
    },
    /// The memory to be bound to the backend's node.
    Bind {
        /// Where it begins.
        address: u64,
        /// Its size.
        size: u64,
    },
    /// The memory to be populated.
    Advise {
        /// Where it begins.
        address: u64,
        /// Its size.
        size: u64,
    },
    /// Nothing.
    Finished {
        /// Where the memory begins, or why there is none.
        result: Result<u64, Error>,
    },
}

/// A file on its way into memory.
#[derive(Clone, Copy, Debug, PartialEq, Eq)]
pub struct Mapping {
    call: MapCall,
    numa: bool,
    physical: bool,
    step: MapStep,
}

impl Mapping {
    /// What is to be mapped.
    pub closed spec fn call(&self) -> MapCall {
        self.call
    }

    /// Whether the memory is to be bound to a node.
    pub closed spec fn numa(&self) -> bool {
        self.numa
    }

    /// Whether the memory is to be populated once it is mapped.
    pub closed spec fn physical(&self) -> bool {
        self.physical
    }

    /// What the mapping waits for.
    pub closed spec fn step_spec(&self) -> MapStep {
        self.step
    }

    /// Whether memory can begin at an address: it is not null, and it is where
    /// the memory was asked for.
    pub open spec fn accepts(&self, address: u64) -> bool {
        &&& address != 0
        &&& self.call().address matches Some(expected) ==> address == expected
    }

    /// Memory that has been mapped is where it was asked for.
    pub open spec fn wf(&self) -> bool {
        match self.step_spec() {
            MapStep::Mmap { call } => call == self.call(),
            MapStep::Bind { address, size } => {
                self.accepts(address) && size == self.call().size && self.numa()
            },
            MapStep::Advise { address, size } => {
                self.accepts(address) && size == self.call().size && self.physical()
            },
            MapStep::Finished { result } => result matches Ok(address) ==> self.accepts(address),
        }
    }

    /// What follows the mapping of memory.
    pub open spec fn after_map(&self, address: u64) -> MapStep {
        if self.numa() {
            MapStep::Bind { address, size: self.call().size }
        } else {
            self.after_bind(address)
        }
    }

    /// What follows the binding of memory.
    pub open spec fn after_bind(&self, address: u64) -> MapStep {
        if self.physical() {
            MapStep::Advise { address, size: self.call().size }
        } else {
            MapStep::Finished { result: Ok(address) }
        }
    }

    /// What follows a reply. A failure ends the mapping with the error that
    /// belongs to the request.
    pub open spec fn after(&self, reply: Result<u64, i32>) -> MapStep {
        match (self.step_spec(), reply) {
            (MapStep::Mmap { .. }, Ok(address)) => self.after_map(address),
            (MapStep::Mmap { .. }, Err(code)) => MapStep::Finished { result: Err(Error::Mmap(code)) },
            (MapStep::Bind { address, .. }, Ok(_)) => self.after_bind(address),
            (MapStep::Bind { .. }, Err(code)) => MapStep::Finished {
                result: Err(Error::Mbind(code)),
            },
            (MapStep::Advise { address, .. }, Ok(_)) => MapStep::Finished { result: Ok(address) },
            (MapStep::Advise { .. }, Err(code)) => MapStep::Finished {
                result: Err(Error::Madvise(code)),
            },
            (MapStep::Finished { result }, _) => MapStep::Finished { result },
        }
    }

    /// The mapping after a reply.
    pub closed spec fn resumed(self, reply: Result<u64, i32>) -> Mapping {
        Mapping { step: self.after(reply), ..self }
    }

    /// What a mapping comes to, given the replies to the requests that it can
    /// make.
    pub open spec fn outcome(
        &self,
        mapped: Result<u64, i32>,
        bound: Result<u64, i32>,
        advised: Result<u64, i32>,
    ) -> Result<u64, Error> {
        match (mapped, bound, advised) {
            (Err(code), _, _) => Err(Error::Mmap(code)),
            (_, Err(code), _) if self.numa() => Err(Error::Mbind(code)),
            (_, _, Err(code)) if self.physical() => Err(Error::Madvise(code)),
            (Ok(address), _, _) => Ok(address),
        }
    }

    /// A mapping comes to an end after the requests that its backend wants,
    /// and succeeds if they all do.
    pub proof fn law_outcome(
        self,
        mapped: Result<u64, i32>,
        bound: Result<u64, i32>,
        advised: Result<u64, i32>,
    )
        requires
            self.step_spec() is Mmap,
        ensures
            ({
                let first = self.resumed(mapped);
                let second = if first.step_spec() is Bind {
                    first.resumed(bound)
                } else {
                    first
                };
                let third = if second.step_spec() is Advise {
                    second.resumed(advised)
                } else {
                    second
                };
                third.step_spec() == (MapStep::Finished {
                    result: self.outcome(mapped, bound, advised),
                })
            }),
    {
    }

    /// What a mapping asks for after each reply. Memory that was mapped is bound
    /// if the backend has a node, then populated if the backend wants that, and
    /// each time it is the memory that was mapped, all of it.
    pub proof fn law_requests(self, address: u64, reply: u64)
        requires
            self.step_spec() is Mmap,
        ensures
            ({
                let mapped = self.resumed(Ok(address));
                let bound = mapped.resumed(Ok(reply));
                let size = self.call().size;
                &&& mapped.call() == self.call()
                &&& self.numa() ==> mapped.step_spec() == (MapStep::Bind { address, size })
                &&& !self.numa() && self.physical() ==> mapped.step_spec() == (MapStep::Advise {
                    address,
                    size,
                })
                &&& !self.numa() && !self.physical() ==> mapped.step_spec() == (
                MapStep::Finished { result: Ok(address) })
                &&& self.numa() && self.physical() ==> bound.step_spec() == (MapStep::Advise {
                    address,
                    size,
                })
                &&& self.numa() && !self.physical() ==> bound.step_spec() == (MapStep::Finished {
                    result: Ok(address),
                })
            }),
    {
    }

    /// A mapping succeeds, with the address that was mapped, exactly if every
    /// request that its backend wants does. Otherwise its error is the one that
    /// belongs to the first request that failed, with the code of that request.
    pub proof fn law_first_failure_counts(
        self,
        mapped: Result<u64, i32>,
        bound: Result<u64, i32>,
        advised: Result<u64, i32>,
    )
        requires
            self.step_spec() is Mmap,
        ensures
            ({
                let first = self.resumed(mapped);
                let second = if first.step_spec() is Bind {
                    first.resumed(bound)
                } else {
                    first
                };
                let third = if second.step_spec() is Advise {
                    second.resumed(advised)
                } else {
                    second
                };
                &&& third.step_spec() matches MapStep::Finished { result } && {
                    &&& result is Ok <==> mapped is Ok && (self.numa() ==> bound is Ok) && (
                    self.physical() ==> advised is Ok)
                    &&& result matches Ok(address) ==> mapped == Ok::<u64, i32>(address)
                    &&& mapped matches Err(code) ==> result == Err::<u64, Error>(Error::Mmap(code))
                    &&& mapped is Ok && self.numa() ==> (bound matches Err(code) ==> result
                        == Err::<u64, Error>(Error::Mbind(code)))
                    &&& mapped is Ok && (self.numa() ==> bound is Ok) && self.physical() ==> (
                    advised matches Err(code) ==> result == Err::<u64, Error>(Error::Madvise(code)))
                }
            }),
    {
    }

    /// A file to be mapped for reading and writing.
    pub fn new(address: Option<u64>, size: u64, backend: Backend, file: File) -> (mapping: Self)
        ensures
            mapping.call() == (MapCall {
                address,
                size,
                protection: Protection::ReadWrite,
                source: Source::File { flags: file.flags, fd: file.fd, offset: file.offset },
                populate: backend.populate == Some(Populate::PageTable),
            }),
            mapping.numa() == backend.numa,
            mapping.physical() == (backend.populate == Some(Populate::Physical)),
            mapping.step_spec() == (MapStep::Mmap { call: mapping.call() }),
            mapping.wf(),
    {
        let call: MapCall = MapCall {
            address,
            size,
            protection: Protection::ReadWrite,
            source: Source::File { flags: file.flags, fd: file.fd, offset: file.offset },
            populate: matches!(backend.populate, Some(Populate::PageTable)),
        };
        Mapping {
            call,
            numa: backend.numa,
            physical: matches!(backend.populate, Some(Populate::Physical)),
            step: MapStep::Mmap { call },
        }
    }

    /// What the mapping waits for.
    pub fn step(&self) -> (step: MapStep)
        ensures
            step == self.step_spec(),
    {
        self.step
    }

    /// Takes the reply to what the mapping waited for: an address where memory
    /// was mapped, any number where it was not, or the error code.
    pub fn resume(&mut self, reply: Result<u64, i32>)
        requires
            old(self).wf(),
            old(self).step_spec() !is Finished,
            old(self).step_spec() is Mmap ==> (reply matches Ok(address) ==> old(self).accepts(
                address,
            )),
        ensures
            final(self).wf(),
            final(self).call() == old(self).call(),
            final(self).numa() == old(self).numa(),
            final(self).physical() == old(self).physical(),
            final(self).step_spec() == old(self).after(reply),
            *final(self) == old(self).resumed(reply),
    {
        self.step = match (self.step, reply) {
            (MapStep::Mmap { .. }, Ok(address)) => self.bind_or_advise(address),
            (MapStep::Mmap { .. }, Err(code)) => MapStep::Finished { result: Err(Error::Mmap(code)) },
            (MapStep::Bind { address, .. }, Ok(_)) => self.advise(address),
            (MapStep::Bind { .. }, Err(code)) => MapStep::Finished {
                result: Err(Error::Mbind(code)),
            },
            (MapStep::Advise { address, .. }, Ok(_)) => MapStep::Finished { result: Ok(address) },
            (MapStep::Advise { .. }, Err(code)) => MapStep::Finished {
                result: Err(Error::Madvise(code)),
            },
            (MapStep::Finished { result }, _) => MapStep::Finished { result },
        };
    }

    fn bind_or_advise(&self, address: u64) -> (step: MapStep)
        ensures
            step == self.after_map(address),
    {
        if self.numa {
            MapStep::Bind { address, size: self.call.size }
        } else {
            self.advise(address)
        }
    }

    fn advise(&self, address: u64) -> (step: MapStep)
        ensures
            step == self.after_bind(address),
    {
        if self.physical {
            MapStep::Advise { address, size: self.call.size }
        } else {
            MapStep::Finished { result: Ok(address) }
        }
    }
}

/// Memory with a file behind it.
#[derive(Clone, Copy, Debug, PartialEq, Eq, Structural)]
pub struct Backed {
    /// Where it begins.
    pub address: u64,
    /// Whether the file is new.
    pub clean: bool,
}

/// What a backing waits for.
#[derive(Clone, Copy, Debug)]
pub enum BackStep {
    /// A file to be allocated by the backend.
    Allocate {
        /// The name of the file.
        id: Id,
        /// Its size.
        size: u64,
    },
    /// The file to be mapped.
    Mmap {
        /// Whether the file is new.
        clean: bool,
        /// How far the mapping has come.
        mapping: Mapping,
    },
    /// Nothing.
    Finished {
        /// The memory, or why there is none.
        result: Result<Backed, Error>,
    },
}

/// Memory that is to get a file behind it.
#[derive(Clone, Copy, Debug)]
pub struct Backing {
    backend: Backend,
    id: Id,
    address: Option<u64>,
    size: u64,
    step: BackStep,
}

impl Backing {
    /// How the backend wants its files to be mapped.
    pub closed spec fn backend(&self) -> Backend {
        self.backend
    }

    /// The name of the file.
    pub closed spec fn id(&self) -> Seq<char> {
        self.id@
    }

    /// Where the memory has to be, if that matters.
    pub closed spec fn address(&self) -> Option<u64> {
        self.address
    }

    /// The size of the file and of the memory.
    pub closed spec fn size(&self) -> u64 {
        self.size
    }

    /// What the backing waits for.
    pub closed spec fn step_spec(&self) -> BackStep {
        self.step
    }

    /// Whether another backing is for the same memory and file.
    pub open spec fn same(&self, other: &Backing) -> bool {
        &&& self.backend() == other.backend()
        &&& self.id() == other.id()
        &&& self.address() == other.address()
        &&& self.size() == other.size()
    }

    /// Whether memory can begin at an address.
    pub open spec fn accepts(&self, address: u64) -> bool {
        &&& address != 0
        &&& self.address() matches Some(expected) ==> address == expected
    }

    /// What is requested is what the memory is to be.
    pub open spec fn wf(&self) -> bool {
        match self.step_spec() {
            BackStep::Allocate { id, size } => id@ == self.id() && size == self.size(),
            BackStep::Mmap { mapping, .. } => {
                &&& mapping.wf()
                &&& mapping.step_spec() !is Finished
                &&& mapping.call().address == self.address()
                &&& mapping.call().size == self.size()
            },
            BackStep::Finished { result } => result matches Ok(backed) ==> self.accepts(
                backed.address,
            ),
        }
    }

    /// Memory to be backed by a file of the same size.
    pub fn new(backend: Backend, id: Id, address: Option<u64>, size: u64) -> (backing: Self)
        ensures
            backing.backend() == backend,
            backing.id() == id@,
            backing.address() == address,
            backing.size() == size,
            backing.step_spec() == (BackStep::Allocate { id, size }),
            backing.wf(),
    {
        Backing { backend, id, address, size, step: BackStep::Allocate { id, size } }
    }

    /// The name of the file.
    pub fn name(&self) -> (id: Id)
        ensures
            id@ == self.id(),
    {
        self.id
    }

    /// The size of the file and of the memory.
    pub fn len(&self) -> (size: u64)
        ensures
            size == self.size(),
    {
        self.size
    }

    /// What the backing waits for.
    pub fn step(&self) -> (step: &BackStep)
        ensures
            *step == self.step_spec(),
    {
        &self.step
    }

    /// Takes the file that the backend has allocated, or its error. A file is
    /// mapped next; an error is how the backing ends.
    pub fn allocated(&mut self, reply: Result<File, Error>)
        requires
            old(self).wf(),
            old(self).step_spec() is Allocate,
        ensures
            final(self).wf(),
            final(self).same(old(self)),
            match reply {
                Err(error) => final(self).step_spec() == (BackStep::Finished {
                    result: Err(error),
                }),
                Ok(file) => final(self).step_spec() matches BackStep::Mmap { clean, mapping } && {
                    &&& clean == file.clean
                    &&& mapping.step_spec() == (MapStep::Mmap { call: mapping.call() })
                    &&& mapping.numa() == old(self).backend().numa
                    &&& mapping.physical() == (old(self).backend().populate == Some(
                        Populate::Physical,
                    ))
                    &&& mapping.call() == (MapCall {
                        address: old(self).address(),
                        size: old(self).size(),
                        protection: Protection::ReadWrite,
                        source: Source::File {
                            flags: file.flags,
                            fd: file.fd,
                            offset: file.offset,
                        },
                        populate: old(self).backend().populate == Some(Populate::PageTable),
                    })
                },
            },
    {
        self.step = match reply {
            Err(error) => BackStep::Finished { result: Err(error) },
            Ok(file) => BackStep::Mmap {
                clean: file.clean,
                mapping: Mapping::new(self.address, self.size, self.backend, file),
            },
        };
    }

    /// Takes the reply to what the mapping waited for. When the mapping comes
    /// to an end, so does the backing.
    pub fn resume(&mut self, reply: Result<u64, i32>)
        requires
            old(self).wf(),
            old(self).step_spec() matches BackStep::Mmap { mapping, .. } && (
            mapping.step_spec() is Mmap ==> (reply matches Ok(address) ==> old(self).accepts(
                address,
            ))),
        ensures
            final(self).wf(),
            final(self).same(old(self)),
            old(self).step_spec() matches BackStep::Mmap { clean, mapping } && match mapping.after(
                reply,
            ) {
                MapStep::Finished { result: Ok(address) } => final(self).step_spec() == (
                BackStep::Finished { result: Ok(Backed { address, clean }) }),
                MapStep::Finished { result: Err(error) } => final(self).step_spec() == (
                BackStep::Finished { result: Err(error) }),
                step => final(self).step_spec() matches BackStep::Mmap {
                    clean: still_clean,
                    mapping: resumed,
                } && {
                    &&& still_clean == clean
                    &&& resumed.step_spec() == step
                    &&& resumed.call() == mapping.call()
                    &&& resumed.numa() == mapping.numa()
                    &&& resumed.physical() == mapping.physical()
                },
            },
    {
        if let BackStep::Mmap { clean, mapping } = self.step {
            let mut mapping: Mapping = mapping;
            mapping.resume(reply);
            self.step = match mapping.step() {
                MapStep::Finished { result: Ok(address) } => BackStep::Finished {
                    result: Ok(Backed { address, clean }),
                },
                MapStep::Finished { result: Err(error) } => BackStep::Finished {
                    result: Err(error),
                },
                _ => BackStep::Mmap { clean, mapping },
            };
        }
    }

    /// How the backing ended.
    pub fn result(&self) -> (result: Result<Backed, Error>)
        requires
            self.wf(),
            self.step_spec() is Finished,
        ensures
            self.step_spec() == (BackStep::Finished { result }),
            result matches Ok(backed) ==> self.accepts(backed.address),
    {
        match self.step {
            BackStep::Finished { result } => result,
            _ => vstd::pervasive::unreached(),
        }
    }

    /// How the backing ended, for memory whose address is known.
    pub fn done(&self) -> (result: Result<(), Error>)
        requires
            self.wf(),
            self.step_spec() is Finished,
        ensures
            match result {
                Ok(()) => self.step_spec() matches BackStep::Finished { result } && result is Ok,
                Err(error) => self.step_spec() == (BackStep::Finished { result: Err(error) }),
            },
    {
        match self.result() {
            Ok(_) => Ok(()),
            Err(error) => Err(error),
        }
    }
}

} // verus!
