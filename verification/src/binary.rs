//! The binary FBX emitter.
//!
//! This backend shares the ASCII emitter's four-operation interface but
//! targets FBX's binary record layout.  The wire format is not settled here:
//! every document operation fails with [`ErrorKind::Unimplemented`] until a
//! conforming record layout is supplied, so construction is the only
//! reachable behaviour.

use vstd::prelude::*;
use vstd::string::StringExecFns;
use crate::error::{Error, ErrorKind};

verus! {

/// A writer for binary FBX.
#[derive(Debug)]
pub struct BinaryEmitter {
    version: u32,
    pos: u64,
    end_offset_pos_stack: Vec<u64>,
}

impl BinaryEmitter {
    /// The FBX version the writer was constructed with.
    pub closed spec fn spec_version(self) -> u32 {
        self.version
    }

    /// The running byte-offset counter.
    pub closed spec fn spec_pos(self) -> u64 {
        self.pos
    }

    /// The stack of deferred end-offset patch positions.
    pub closed spec fn spec_end_offsets(self) -> Seq<u64> {
        self.end_offset_pos_stack@
    }

    /// Constructs a binary FBX writer for the given version, at offset zero
    /// with no deferred patches.
    pub fn new(version: u32) -> (r: Self)
        ensures
            r.spec_version() == version,
            r.spec_pos() == 0,
            r.spec_end_offsets() == Seq::<u64>::empty(),
    {
        BinaryEmitter { version, pos: 0, end_offset_pos_stack: Vec::new() }
    }

    /// Starting a binary document always fails with the unimplemented error
    /// kind, whatever the arguments; nothing is written.
    pub fn emit_start_fbx(&mut self, sink: &mut Vec<u8>, ver: u32) -> (r: Result<(), Error>)
        ensures
            ({
                &&& r matches Err(e)
                &&& e.spec_pos() == old(self).spec_pos()
                &&& e.spec_kind() matches ErrorKind::Unimplemented(m)
                &&& m@ == "BinaryEmitter::emit_start_fbx() is unimplemented yet"@
            }),
            final(self).spec_version() == old(self).spec_version(),
            final(self).spec_pos() == old(self).spec_pos(),
            final(self).spec_end_offsets() == old(self).spec_end_offsets(),
            final(sink)@ == old(sink)@,
    {
        let _ = sink;
        let _ = ver;
        Err(
            Error::new(
                self.pos,
                ErrorKind::Unimplemented(
                    String::from_str("BinaryEmitter::emit_start_fbx() is unimplemented yet"),
                ),
            ),
        )
    }
}

} // verus!
