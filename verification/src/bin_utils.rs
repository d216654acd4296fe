//! The section-indexed binary container: directory builder and section cursor.
//!
//! A container starts with a 4-byte magic tag, a 4-byte little-endian format
//! version and a 4-byte little-endian section count, followed by that many
//! sections, each introduced by a 4-byte type identifier and an 8-byte payload
//! length. `BinFile::new_from_reader` parses that layout into a directory of
//! section descriptors; `start_read_section`, the primitive reads and
//! `end_read_section` give scoped access to one section's payload at a time.

use vstd::prelude::*;

use crate::bytes::{
    enc_le, le_bytes, le_u32_at, le_u64_at, lemma_enc_le_len, lemma_le_bytes_enc, lemma_pow256_4_8,
    pow256,
};

verus! {

/// How an operation on a container can fail.
#[derive(Clone, Copy, Debug, PartialEq, Eq, Structural)]
pub enum ZKeyError {
    /// The container is structurally invalid: wrong magic tag, unsupported
    /// version, or a section scope that was closed after consuming a number
    /// of bytes other than the section's declared size.
    FormatError,
    /// The requested section type has no entry in the directory.
    NotFoundError,
    /// The bytes needed by a read lie beyond the end of the container.
    IoError,
    /// A read inside a section would cross the section's declared size.
    OutOfBoundsError,
}

/// One section's placement: the byte offset of its payload from the start of
/// the container, and the payload's declared length.
#[derive(Clone, Copy, Debug, PartialEq, Eq, Structural)]
pub struct Section {
    pub offset: u64,
    pub size: u64,
}

/// Parses `n` directory entries starting at byte `pos`: each entry is a
/// 4-byte type identifier and an 8-byte payload length, followed by the
/// payload itself, which the directory pass skips. `None` means an entry's
/// twelve fixed bytes run past the end of the data. A payload that runs past
/// the end only fails the parse if another entry follows it.
pub open spec fn spec_entries(data: Seq<u8>, pos: int, n: int) -> Option<Seq<(u32, Section)>>
    decreases n,
{
    if n <= 0 {
        Some(Seq::empty())
    } else if pos < 0 || pos + 12 > data.len() {
        None
    } else {
        let ty = le_bytes(data.subrange(pos, pos + 4)) as u32;
        let size = le_bytes(data.subrange(pos + 4, pos + 12)) as u64;
        let sec = Section { offset: (pos + 12) as u64, size };
        let next = if pos + 12 + size <= data.len() {
            pos + 12 + size as int
        } else {
            data.len() as int
        };
        match spec_entries(data, next, n - 1) {
            Some(rest) => Some(seq![(ty, sec)] + rest),
            None => None,
        }
    }
}

/// What opening a container yields: the directory in file order, or the
/// error that the header or the directory pass reports.
pub open spec fn spec_open(data: Seq<u8>, magic: Seq<u8>, max_version: u32) -> Result<
    Seq<(u32, Section)>,
    ZKeyError,
> {
    if data.len() < 4 {
        Err(ZKeyError::IoError)
    } else if data.subrange(0, 4) != magic {
        Err(ZKeyError::FormatError)
    } else if data.len() < 8 {
        Err(ZKeyError::IoError)
    } else if le_bytes(data.subrange(4, 8)) > max_version {
        Err(ZKeyError::FormatError)
    } else if data.len() < 12 {
        Err(ZKeyError::IoError)
    } else {
        match spec_entries(data, 12, le_bytes(data.subrange(8, 12)) as int) {
            Some(entries) => Ok(entries),
            None => Err(ZKeyError::IoError),
        }
    }
}

/// The descriptors of one section type, in file order.
pub open spec fn occ(dir: Seq<(u32, Section)>, section_id: u32) -> Seq<Section>
    decreases dir.len(),
{
    if dir.len() == 0 {
        Seq::empty()
    } else {
        let prev = occ(dir.drop_last(), section_id);
        if dir.last().0 == section_id {
            prev.push(dir.last().1)
        } else {
            prev
        }
    }
}

/// Which occurrence `start_read_section` selects: the requested index when it
/// is in range, and otherwise the first occurrence.
pub open spec fn chosen_index(section_index: Option<u32>, k: nat) -> int {
    match section_index {
        Some(i) => if (i as nat) < k {
            i as int
        } else {
            0
        },
        None => 0,
    }
}

/// Whether a read of `n` bytes is refused, given the active section and how
/// much of it is already consumed: crossing the section's declared size is
/// `OutOfBoundsError`, and a read inside the declared size that crosses the
/// end of the data is `IoError`.
pub open spec fn read_step_err(data_len: int, sec: Section, consumed: nat, n: nat) -> Option<
    ZKeyError,
> {
    if consumed + n > sec.size {
        Some(ZKeyError::OutOfBoundsError)
    } else if sec.offset + consumed + n > data_len {
        Some(ZKeyError::IoError)
    } else {
        None
    }
}

/// An open container: the raw bytes, the expected magic tag, the section
/// directory in file order, and at most one active read scope.
pub struct BinFile {
    data: Vec<u8>,
    bin_type: Vec<u8>,
    sections: Vec<(u32, Section)>,
    reading_section: Option<Section>,
    consumed: u64,
}

/// Every descriptor taken from a directory whose offsets are within `bound`
/// has its offset within `bound`.
proof fn lemma_occ_offsets(dir: Seq<(u32, Section)>, section_id: u32, bound: int)
    requires
        forall|k: int| 0 <= k < dir.len() ==> (#[trigger] dir[k]).1.offset as int <= bound,
    ensures
        forall|j: int|
            0 <= j < occ(dir, section_id).len() ==> (#[trigger] occ(dir, section_id)[j]).offset
                as int <= bound,
    decreases dir.len(),
{
    if dir.len() > 0 {
        let prev = dir.drop_last();
        assert(forall|k: int| 0 <= k < prev.len() ==> prev[k] == dir[k]);
        lemma_occ_offsets(prev, section_id, bound);
        let o = occ(dir, section_id);
        let po = occ(prev, section_id);
        assert forall|j: int| 0 <= j < o.len() implies (#[trigger] o[j]).offset as int <= bound by {
            if dir.last().0 == section_id {
                assert(o == po.push(dir.last().1));
                if j < po.len() {
                    assert(o[j] == po[j]);
                } else {
                    assert(o[j] == dir.last().1);
                    assert(dir.last() == dir[dir.len() - 1]);
                }
            } else {
                assert(o == po);
            }
        }
    }
}

impl BinFile {
    /// The container's bytes.
    pub closed spec fn bytes(self) -> Seq<u8> {
        self.data@
    }

    /// The magic tag the container was opened against.
    pub closed spec fn magic(self) -> Seq<u8> {
        self.bin_type@
    }

    /// The section directory, in file order.
    pub closed spec fn dir(self) -> Seq<(u32, Section)> {
        self.sections@
    }

    /// The active read scope, if one is open.
    pub closed spec fn scope(self) -> Option<Section> {
        self.reading_section
    }

    /// How many bytes of the active scope's section have been consumed.
    pub closed spec fn scope_consumed(self) -> nat {
        self.consumed as nat
    }

    /// Internal consistency: every directory offset lies within the data, and
    /// the active scope, when present, has consumed no more than its
    /// section's declared size.
    pub closed spec fn wf(self) -> bool {
        &&& forall|k: int|
            0 <= k < self.sections@.len() ==> (#[trigger] self.sections@[k]).1.offset as int
                <= self.data@.len()
        &&& match self.reading_section {
            Some(sec) => sec.offset as int <= self.data@.len() && self.consumed <= sec.size,
            None => self.consumed == 0,
        }
    }

    /// Opens a container: checks the 4-byte magic tag and the version bound,
    /// then builds the section directory by walking the section table.
    #[verifier::loop_isolation(false)]
    pub fn new_from_reader(data: Vec<u8>, bin_type: Vec<u8>, max_version: u32) -> (r: Result<
        BinFile,
        ZKeyError,
    >)
        requires
            bin_type@.len() == 4,
        ensures
            match r {
                Ok(bf) => {
                    &&& bf.wf()
                    &&& bf.bytes() == data@
                    &&& bf.magic() == bin_type@
                    &&& bf.scope() is None
                    &&& spec_open(data@, bin_type@, max_version) == Ok::<_, ZKeyError>(bf.dir())
                },
                Err(e) => spec_open(data@, bin_type@, max_version) == Err::<
                    Seq<(u32, Section)>,
                    _,
                >(e),
            },
    {
        if data.len() < 4 {
            return Err(ZKeyError::IoError);
        }
        let mut mi: usize = 0;
        while mi < 4
            invariant
                mi <= 4,
                forall|k: int| 0 <= k < mi ==> data@[k] == bin_type@[k],
            decreases 4 - mi,
        {
            if data[mi] != bin_type[mi] {
                proof {
                    assert(data@.subrange(0, 4)[mi as int] != bin_type@[mi as int]);
                }
                return Err(ZKeyError::FormatError);
            }
            mi = mi + 1;
        }
        proof {
            assert(data@.subrange(0, 4) =~= bin_type@);
        }
        if data.len() < 8 {
            return Err(ZKeyError::IoError);
        }
        let version = le_u32_at(&data, 4);
        if version > max_version {
            return Err(ZKeyError::FormatError);
        }
        if data.len() < 12 {
            return Err(ZKeyError::IoError);
        }
        let n_sections = le_u32_at(&data, 8);
        let mut sections: Vec<(u32, Section)> = Vec::new();
        let mut pos: usize = 12;
        let mut i: u32 = 0;
        proof {
            match spec_entries(data@, 12, n_sections as int) {
                Some(rest) => {
                    assert(Seq::<(u32, Section)>::empty() + rest =~= rest);
                },
                None => {},
            }
        }
        while i < n_sections
            invariant
                i <= n_sections,
                pos <= data@.len(),
                spec_entries(data@, 12, n_sections as int) == (match spec_entries(
                    data@,
                    pos as int,
                    n_sections as int - i as int,
                ) {
                    Some(rest) => Some(sections@ + rest),
                    None => None::<Seq<(u32, Section)>>,
                }),
                forall|k: int|
                    0 <= k < sections@.len() ==> (#[trigger] sections@[k]).1.offset as int
                        <= data@.len(),
            decreases n_sections - i,
        {
            if data.len() - pos < 12 {
                return Err(ZKeyError::IoError);
            }
            let ty = le_u32_at(&data, pos);
            let size = le_u64_at(&data, pos + 4);
            let offset = pos + 12;
            let sec = Section { offset: offset as u64, size };
            let ghost old_sections = sections@;
            sections.push((ty, sec));
            let remaining: u64 = (data.len() - offset) as u64;
            if size <= remaining {
                pos = offset + size as usize;
            } else {
                pos = data.len();
            }
            proof {
                match spec_entries(data@, pos as int, n_sections as int - i as int - 1) {
                    Some(rest) => {
                        assert(old_sections.push((ty, sec)) + rest =~= old_sections + (seq![
                            (ty, sec),
                        ] + rest));
                    },
                    None => {},
                }
            }
            i = i + 1;
        }
        proof {
            match spec_entries(data@, pos as int, 0) {
                Some(rest) => {
                    assert(sections@ + rest =~= sections@);
                },
                None => {},
            }
        }
        Ok(BinFile { data, bin_type, sections, reading_section: None, consumed: 0 })
    }

    /// The descriptors recorded for one section type, in file order; empty
    /// when the type is absent from the directory.
    #[verifier::loop_isolation(false)]
    pub fn sections(&self, section_id: u32) -> (v: Vec<Section>)
        ensures
            v@ == occ(self.dir(), section_id),
    {
        let mut v: Vec<Section> = Vec::new();
        let n = self.sections.len();
        let mut i: usize = 0;
        while i < n
            invariant
                i <= n,
                v@ == occ(self.sections@.take(i as int), section_id),
            decreases n - i,
        {
            let ty = self.sections[i].0;
            let sec = self.sections[i].1;
            proof {
                assert(self.sections@.take(i as int + 1).drop_last() =~= self.sections@.take(
                    i as int,
                ));
                assert(self.sections@.take(i as int + 1).last() == self.sections@[i as int]);
            }
            if ty == section_id {
                v.push(sec);
            }
            i = i + 1;
        }
        proof {
            assert(self.sections@.take(n as int) =~= self.sections@);
        }
        v
    }

    /// Opens a read scope on the `section_index`-th occurrence of
    /// `section_id`. An out-of-range or absent index falls back to the first
    /// occurrence; a type with no occurrence at all is `NotFoundError`.
    pub fn start_read_section(&mut self, section_id: u32, section_index: Option<u32>) -> (r:
        Result<(), ZKeyError>)
        requires
            old(self).wf(),
            old(self).scope() is None,
        ensures
            final(self).wf(),
            final(self).bytes() == old(self).bytes(),
            final(self).magic() == old(self).magic(),
            final(self).dir() == old(self).dir(),
            match r {
                Ok(()) => ({
                    let occs = occ(old(self).dir(), section_id);
                    &&& occs.len() > 0
                    &&& final(self).scope() == Some(
                        occs[chosen_index(section_index, occs.len())],
                    )
                    &&& final(self).scope_consumed() == 0
                }),
                Err(e) => {
                    &&& e == ZKeyError::NotFoundError
                    &&& occ(old(self).dir(), section_id).len() == 0
                    &&& final(self).scope() is None
                    &&& final(self).scope_consumed() == 0
                },
            },
    {
        let v = self.sections(section_id);
        if v.len() == 0 {
            return Err(ZKeyError::NotFoundError);
        }
        let idx: usize = match section_index {
            Some(i) => if (i as usize) < v.len() {
                i as usize
            } else {
                0
            },
            None => 0,
        };
        let sec = v[idx];
        proof {
            lemma_occ_offsets(self.sections@, section_id, self.data@.len() as int);
            assert(idx as int == chosen_index(section_index, occ(self.dir(), section_id).len()));
        }
        self.reading_section = Some(sec);
        self.consumed = 0;
        Ok(())
    }

    /// Reads the next `n` bytes of the active section's payload as an owned
    /// blob. A read crossing the section's declared size is
    /// `OutOfBoundsError`; one inside the declared size but crossing the end
    /// of the data is `IoError`, never a silent short read.
    #[verifier::loop_isolation(false)]
    pub fn read_bytes(&mut self, n: u64) -> (r: Result<Vec<u8>, ZKeyError>)
        requires
            old(self).wf(),
            old(self).scope() is Some,
        ensures
            final(self).wf(),
            final(self).bytes() == old(self).bytes(),
            final(self).magic() == old(self).magic(),
            final(self).dir() == old(self).dir(),
            ({
                let sec = old(self).scope()->Some_0;
                let start = sec.offset as int + old(self).scope_consumed() as int;
                match r {
                    Ok(out) => {
                        &&& read_step_err(
                            old(self).bytes().len() as int,
                            sec,
                            old(self).scope_consumed(),
                            n as nat,
                        ) is None
                        &&& out@ == old(self).bytes().subrange(start, start + n as int)
                        &&& final(self).scope() == old(self).scope()
                        &&& final(self).scope_consumed() == old(self).scope_consumed() + n as nat
                    },
                    Err(e) => {
                        &&& Some(e) == read_step_err(
                            old(self).bytes().len() as int,
                            sec,
                            old(self).scope_consumed(),
                            n as nat,
                        )
                        &&& *final(self) == *old(self)
                    },
                }
            }),
    {
        let sec = self.reading_section.unwrap();
        let remaining_scope: u64 = sec.size - self.consumed;
        if n > remaining_scope {
            return Err(ZKeyError::OutOfBoundsError);
        }
        let len: usize = self.data.len();
        let avail: u64 = (len as u64) - sec.offset;
        if self.consumed + n > avail {
            return Err(ZKeyError::IoError);
        }
        let start: usize = (sec.offset + self.consumed) as usize;
        let cnt: usize = n as usize;
        let mut out: Vec<u8> = Vec::new();
        let mut i: usize = 0;
        while i < cnt
            invariant
                i <= cnt,
                out@ == self.data@.subrange(start as int, start as int + i as int),
            decreases cnt - i,
        {
            out.push(self.data[start + i]);
            proof {
                assert(self.data@.subrange(start as int, start as int + i as int + 1)
                    =~= self.data@.subrange(start as int, start as int + i as int).push(
                    self.data@[start as int + i as int],
                ));
            }
            i = i + 1;
        }
        self.consumed = self.consumed + n;
        Ok(out)
    }

    /// Reads the next 4 payload bytes as a little-endian unsigned integer.
    pub fn read_u32_le(&mut self) -> (r: Result<u32, ZKeyError>)
        requires
            old(self).wf(),
            old(self).scope() is Some,
        ensures
            final(self).wf(),
            final(self).bytes() == old(self).bytes(),
            final(self).magic() == old(self).magic(),
            final(self).dir() == old(self).dir(),
            ({
                let sec = old(self).scope()->Some_0;
                let start = sec.offset as int + old(self).scope_consumed() as int;
                match r {
                    Ok(v) => {
                        &&& read_step_err(
                            old(self).bytes().len() as int,
                            sec,
                            old(self).scope_consumed(),
                            4,
                        ) is None
                        &&& v as nat == le_bytes(old(self).bytes().subrange(start, start + 4))
                        &&& final(self).scope() == old(self).scope()
                        &&& final(self).scope_consumed() == old(self).scope_consumed() + 4
                    },
                    Err(e) => {
                        &&& Some(e) == read_step_err(
                            old(self).bytes().len() as int,
                            sec,
                            old(self).scope_consumed(),
                            4,
                        )
                        &&& *final(self) == *old(self)
                    },
                }
            }),
    {
        match self.read_bytes(4) {
            Ok(buf) => {
                proof {
                    assert(buf@.subrange(0, 4) =~= buf@);
                }
                Ok(le_u32_at(&buf, 0))
            },
            Err(e) => Err(e),
        }
    }

    /// Reads the next 8 payload bytes as a little-endian unsigned integer.
    pub fn read_u64_le(&mut self) -> (r: Result<u64, ZKeyError>)
        requires
            old(self).wf(),
            old(self).scope() is Some,
        ensures
            final(self).wf(),
            final(self).bytes() == old(self).bytes(),
            final(self).magic() == old(self).magic(),
            final(self).dir() == old(self).dir(),
            ({
                let sec = old(self).scope()->Some_0;
                let start = sec.offset as int + old(self).scope_consumed() as int;
                match r {
                    Ok(v) => {
                        &&& read_step_err(
                            old(self).bytes().len() as int,
                            sec,
                            old(self).scope_consumed(),
                            8,
                        ) is None
                        &&& v as nat == le_bytes(old(self).bytes().subrange(start, start + 8))
                        &&& final(self).scope() == old(self).scope()
                        &&& final(self).scope_consumed() == old(self).scope_consumed() + 8
                    },
                    Err(e) => {
                        &&& Some(e) == read_step_err(
                            old(self).bytes().len() as int,
                            sec,
                            old(self).scope_consumed(),
                            8,
                        )
                        &&& *final(self) == *old(self)
                    },
                }
            }),
    {
        match self.read_bytes(8) {
            Ok(buf) => {
                proof {
                    assert(buf@.subrange(0, 8) =~= buf@);
                }
                Ok(le_u64_at(&buf, 0))
            },
            Err(e) => Err(e),
        }
    }

    /// Closes the active read scope, unconditionally. Unless `check` is
    /// `Some(false)`, a scope that consumed a number of bytes other than its
    /// section's declared size is reported as `FormatError`; the scope is
    /// cleared regardless. Closing with no scope open does nothing.
    pub fn end_read_section(&mut self, check: Option<bool>) -> (r: Result<(), ZKeyError>)
        requires
            old(self).wf(),
        ensures
            final(self).wf(),
            final(self).bytes() == old(self).bytes(),
            final(self).magic() == old(self).magic(),
            final(self).dir() == old(self).dir(),
            final(self).scope() is None,
            final(self).scope_consumed() == 0,
            match r {
                Ok(()) => match old(self).scope() {
                    Some(sec) => check == Some(false) || old(self).scope_consumed()
                        == sec.size as nat,
                    None => true,
                },
                Err(e) => {
                    &&& e == ZKeyError::FormatError
                    &&& check != Some(false)
                    &&& old(self).scope() matches Some(sec) && old(self).scope_consumed()
                        != sec.size as nat
                },
            },
    {
        let do_check: bool = match check {
            Some(b) => b,
            None => true,
        };
        let result: Result<(), ZKeyError> = match self.reading_section {
            Some(sec) => {
                if do_check && self.consumed != sec.size {
                    Err(ZKeyError::FormatError)
                } else {
                    Ok(())
                }
            },
            None => Ok(()),
        };
        self.reading_section = None;
        self.consumed = 0;
        result
    }
}

/// Opening the same bytes twice yields byte-identical section boundaries:
/// the directory, and with it every section's offset and size, is a function
/// of the container's bytes alone.
pub proof fn lemma_open_idempotent(
    data: Seq<u8>,
    magic: Seq<u8>,
    max_version: u32,
    dir1: Seq<(u32, Section)>,
    dir2: Seq<(u32, Section)>,
)
    requires
        spec_open(data, magic, max_version) == Ok::<_, ZKeyError>(dir1),
        spec_open(data, magic, max_version) == Ok::<_, ZKeyError>(dir2),
    ensures
        dir1 == dir2,
        forall|section_id: u32| occ(dir1, section_id) == occ(dir2, section_id),
{
}

/// A container whose first four bytes differ from the expected magic tag is
/// refused as `FormatError`, whatever the rest of its bytes hold.
pub proof fn lemma_bad_magic(data: Seq<u8>, magic: Seq<u8>, max_version: u32)
    requires
        data.len() >= 4,
        data.subrange(0, 4) != magic,
    ensures
        spec_open(data, magic, max_version) == Err::<Seq<(u32, Section)>, _>(
            ZKeyError::FormatError,
        ),
{
}

/// The byte layout of a section table built from (type, payload) pairs: each
/// section is its 4-byte type identifier, its 8-byte payload length, and the
/// payload itself, in the given order.
pub open spec fn build_sections(sections: Seq<(u32, Seq<u8>)>) -> Seq<u8>
    decreases sections.len(),
{
    if sections.len() == 0 {
        Seq::empty()
    } else {
        enc_le(sections[0].0 as nat, 4) + enc_le(sections[0].1.len() as nat, 8) + sections[0].1
            + build_sections(sections.subrange(1, sections.len() as int))
    }
}

/// A whole container laid out from its parts: the magic tag, the version, the
/// section count, and the section table.
pub open spec fn build_container(magic: Seq<u8>, version: u32, sections: Seq<(u32, Seq<u8>)>)
    -> Seq<u8> {
    magic + enc_le(version as nat, 4) + enc_le(sections.len() as nat, 4) + build_sections(sections)
}

/// The directory pass, run over a built section table that fills the rest of
/// the data, recovers every entry's type, size and payload placement.
proof fn lemma_entries_round_trip(data: Seq<u8>, pos: int, sections: Seq<(u32, Seq<u8>)>)
    requires
        0 <= pos <= data.len(),
        data.len() <= u64::MAX,
        data.subrange(pos, data.len() as int) == build_sections(sections),
        forall|i: int| 0 <= i < sections.len() ==> (#[trigger] sections[i]).1.len() < pow256(8),
    ensures
        spec_entries(data, pos, sections.len() as int) matches Some(dir) && {
            &&& dir.len() == sections.len()
            &&& forall|i: int|
                0 <= i < sections.len() ==> {
                    &&& (#[trigger] dir[i]).0 == sections[i].0
                    &&& dir[i].1.size as nat == sections[i].1.len()
                    &&& dir[i].1.offset as int + dir[i].1.size as int <= data.len()
                    &&& data.subrange(
                        dir[i].1.offset as int,
                        dir[i].1.offset as int + dir[i].1.size as int,
                    ) == sections[i].1
                }
        },
    decreases sections.len(),
{
    if sections.len() == 0 {
    } else {
        let ty = sections[0].0;
        let payload = sections[0].1;
        let pl = payload.len() as int;
        let rest = sections.subrange(1, sections.len() as int);
        let enc_ty = enc_le(ty as nat, 4);
        let enc_sz = enc_le(payload.len() as nat, 8);
        lemma_enc_le_len(ty as nat, 4);
        lemma_enc_le_len(payload.len() as nat, 8);
        let built = build_sections(sections);
        assert(built == enc_ty + enc_sz + payload + build_sections(rest));
        assert(data.len() - pos == built.len());
        let next = pos + 12 + pl;
        let suffix = data.subrange(pos, data.len() as int);
        let rb = build_sections(rest);
        assert(data.subrange(pos, pos + 4) =~= enc_ty);
        assert forall|k: int| 0 <= k < 8 implies #[trigger] data.subrange(pos + 4, pos + 12)[k]
            == enc_sz[k] by {
            assert(data.subrange(pos + 4, pos + 12)[k] == suffix[4 + k]);
            assert(suffix[4 + k] == enc_sz[k]);
        }
        assert(data.subrange(pos + 4, pos + 12) =~= enc_sz);
        assert forall|k: int| 0 <= k < pl implies #[trigger] data.subrange(pos + 12, next)[k]
            == payload[k] by {
            assert(data.subrange(pos + 12, next)[k] == suffix[12 + k]);
            assert(suffix[12 + k] == payload[k]);
        }
        assert(data.subrange(pos + 12, next) =~= payload);
        assert forall|k: int| 0 <= k < rb.len() implies #[trigger] data.subrange(
            next,
            data.len() as int,
        )[k] == rb[k] by {
            assert(data.subrange(next, data.len() as int)[k] == suffix[12 + pl + k]);
            assert(suffix[12 + pl + k] == rb[k]);
        }
        assert(data.subrange(next, data.len() as int) =~= build_sections(rest));
        lemma_pow256_4_8();
        lemma_le_bytes_enc(ty as nat, 4);
        lemma_le_bytes_enc(payload.len() as nat, 8);
        assert(le_bytes(data.subrange(pos, pos + 4)) as u32 == ty);
        assert(le_bytes(data.subrange(pos + 4, pos + 12)) as u64 == payload.len() as u64);
        lemma_entries_round_trip(data, next, rest);
        let sec0 = Section { offset: (pos + 12) as u64, size: payload.len() as u64 };
        let dir_rest = spec_entries(data, next, rest.len() as int)->Some_0;
        let dir = spec_entries(data, pos, sections.len() as int)->Some_0;
        assert(dir == seq![(ty, sec0)] + dir_rest);
        assert forall|i: int| 0 <= i < sections.len() implies {
            &&& (#[trigger] dir[i]).0 == sections[i].0
            &&& dir[i].1.size as nat == sections[i].1.len()
            &&& dir[i].1.offset as int + dir[i].1.size as int <= data.len()
            &&& data.subrange(
                dir[i].1.offset as int,
                dir[i].1.offset as int + dir[i].1.size as int,
            ) == sections[i].1
        } by {
            if i == 0 {
                assert(dir[0] == (ty, sec0));
            } else {
                assert(dir[i] == dir_rest[i - 1]);
                assert(sections[i] == rest[i - 1]);
            }
        }
    }
}

/// Round trip: a container built from (type, payload) pairs opens without
/// error, its directory lists the sections in their given order with their
/// given types and sizes, and the bytes each descriptor points at are exactly
/// the payload that was put in.
pub proof fn lemma_build_round_trip(
    magic: Seq<u8>,
    version: u32,
    sections: Seq<(u32, Seq<u8>)>,
    max_version: u32,
)
    requires
        magic.len() == 4,
        version <= max_version,
        sections.len() < pow256(4),
        build_container(magic, version, sections).len() <= u64::MAX,
        forall|i: int| 0 <= i < sections.len() ==> (#[trigger] sections[i]).1.len() < pow256(8),
    ensures
        ({
            let data = build_container(magic, version, sections);
            spec_open(data, magic, max_version) matches Ok(dir) && {
                &&& dir.len() == sections.len()
                &&& forall|i: int|
                    0 <= i < sections.len() ==> {
                        &&& (#[trigger] dir[i]).0 == sections[i].0
                        &&& dir[i].1.size as nat == sections[i].1.len()
                        &&& data.subrange(
                            dir[i].1.offset as int,
                            dir[i].1.offset as int + dir[i].1.size as int,
                        ) == sections[i].1
                    }
            }
        }),
{
    let data = build_container(magic, version, sections);
    lemma_enc_le_len(version as nat, 4);
    lemma_enc_le_len(sections.len() as nat, 4);
    lemma_pow256_4_8();
    assert(data.subrange(0, 4) =~= magic);
    assert(data.subrange(4, 8) =~= enc_le(version as nat, 4));
    assert(data.subrange(8, 12) =~= enc_le(sections.len() as nat, 4));
    lemma_le_bytes_enc(version as nat, 4);
    lemma_le_bytes_enc(sections.len() as nat, 4);
    assert(data.subrange(12, data.len() as int) =~= build_sections(sections));
    lemma_entries_round_trip(data, 12, sections);
}

/// A container whose version field exceeds the supported maximum is refused
/// as `FormatError`, however well-formed the rest of its bytes are.
pub proof fn lemma_bad_version(data: Seq<u8>, magic: Seq<u8>, max_version: u32)
    requires
        data.len() >= 8,
        data.subrange(0, 4) == magic,
        le_bytes(data.subrange(4, 8)) > max_version,
    ensures
        spec_open(data, magic, max_version) == Err::<Seq<(u32, Section)>, _>(
            ZKeyError::FormatError,
        ),
{
}

} // verus!
