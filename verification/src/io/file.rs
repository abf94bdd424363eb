//! Files of collections of states.
use crate::errors::{Error, IoFault, KeteResult};
use crate::float::F64;
use crate::fov::FOV;
use crate::frames::Equatorial;
use crate::io::bytes;
use crate::io::reader;
use crate::io::reader::Reader;
use crate::io::wire;
use crate::io::wire::{KeteRead, KeteWrite, Wire};
use crate::state::simultaneous;
use crate::state::{SimultaneousStates, State};
use crate::time::Time;
use vstd::prelude::*;

verus! {

/// The version of the format which is written, and the last one which is read.
pub const VERSION: u16 = 1;

/// Kind of a file with one collection.
pub const CONTENT_TYPE_SINGLE: u8 = 0;

/// Kind of a file with a list of collections.
pub const CONTENT_TYPE_VEC: u8 = 1;

/// The bytes every file starts with: the letters KETE.
pub open spec fn magic_bytes() -> Seq<u8> {
    seq![0x4b, 0x45, 0x54, 0x45]
}

/// What is in a file.
#[derive(Debug)]
pub enum KeteFileType {
    /// One collection.
    Single(Box<SimultaneousStates>),
    /// A list of collections.
    Vec(Vec<SimultaneousStates>),
}

/// What is kept of a collection: its moment, its center, where it was seen, its states.
pub type EntryFields = (Time, (i32, (Option<FOV>, Vec<State<Equatorial>>)));

/// What is kept of a collection.
pub type EntryModel = <EntryFields as Wire>::V;

/// What is kept of a file.
pub enum FileModel {
    Single(EntryModel),
    Vec(Seq<EntryModel>),
}

impl Wire for SimultaneousStates {
    type V = EntryModel;

    open spec fn wire(&self) -> EntryModel {
        (self.epoch.wire(), (self.center_id, (self.fov.wire(), self.states.wire())))
    }

    open spec fn enc(v: EntryModel) -> Seq<u8> {
        wire::enc_block(<EntryFields as Wire>::enc(v), 4)
    }

    open spec fn fits(v: EntryModel) -> bool {
        &&& <EntryFields as Wire>::fits(v)
        &&& <EntryFields as Wire>::enc(v).len() < 0x1_0000_0000
        &&& simultaneous::header(v.1.1.1, v.1.1.0) == Ok::<(F64, i32), Error>((v.0, v.1.0))
        &&& !v.0.nan()
    }

    open spec fn dec(b: Seq<u8>) -> KeteResult<(EntryModel, Seq<u8>)> {
        match wire::dec_block(b, 4) {
            Ok((payload, rest)) => match <EntryFields as Wire>::dec(payload) {
                Ok(((epoch, (center_id, (fov, states))), _)) => match simultaneous::header(
                    states,
                    fov,
                ) {
                    Ok((jd, center)) => if !jd.same(epoch) || center != center_id {
                        Err(Error::IOError(IoFault::HeaderMismatch))
                    } else {
                        Ok(((jd, (center, (fov, states))), rest))
                    },
                    Err(e) => Err(e),
                },
                Err(e) => Err(e),
            },
            Err(e) => Err(e),
        }
    }

    proof fn lemma_round_trip(v: EntryModel, rest: Seq<u8>) {
        let payload = <EntryFields as Wire>::enc(v);
        let end = Seq::<u8>::empty();
        bytes::lemma_pow256();
        wire::lemma_block_round_trip(payload, 4, rest);
        <EntryFields as Wire>::lemma_round_trip(v, end);
        assert(payload + end =~= payload);
    }
}

impl KeteWrite for SimultaneousStates {
    fn write_to(&self, w: &mut Vec<u8>) -> KeteResult<()> {
        let mut payload: Vec<u8> = Vec::new();
        let _ = (self.epoch(), (self.center_id(), (&self.fov,
            &self.states))).write_to(&mut payload);
        assert(payload@ =~= <EntryFields as Wire>::enc(self.wire()));
        wire::write_block(payload.as_slice(), 4, w);
        Ok(())
    }
}

impl KeteRead for SimultaneousStates {
    fn read_from(r: &mut Reader<'_>) -> KeteResult<Self> {
        let payload = match wire::read_block(r, 4) {
            Ok(payload) => payload,
            Err(e) => {
                return Err(e);
            },
        };
        let mut cursor = Reader::new(payload);
        match <EntryFields>::read_from(&mut cursor) {
            Ok((epoch_file, (center_id_file, (fov, states)))) => match Self::new_exact(states,
                fov) {
                Ok(result) => if !result.epoch().equals(epoch_file) || result.center_id()
                    != center_id_file {
                    Err(Error::IOError(IoFault::HeaderMismatch))
                } else {
                    Ok(result)
                },
                Err(e) => Err(e),
            },
            Err(e) => Err(e),
        }
    }
}

/// The bytes before the content: magic bytes, version, kind of content.
pub open spec fn enc_header(content_type: u8) -> Seq<u8> {
    magic_bytes() + (u16::enc(VERSION) + u8::enc(content_type))
}

/// The kind of content which a file declares, and the bytes after it.
pub open spec fn dec_header(b: Seq<u8>) -> KeteResult<(u8, Seq<u8>)> {
    match reader::take_bytes(b, 4) {
        Ok((magic, rest)) => if magic != magic_bytes() {
            Err(Error::IOError(IoFault::BadMagic))
        } else {
            match u16::dec(rest) {
                Ok((version, rest)) => if version > VERSION {
                    Err(Error::IOError(IoFault::NewerVersion(version)))
                } else {
                    u8::dec(rest)
                },
                Err(e) => Err(e),
            }
        },
        Err(e) => Err(e),
    }
}

/// The bytes of a file.
pub open spec fn enc_file(v: FileModel) -> Seq<u8> {
    match v {
        FileModel::Single(entry)
            => enc_header(CONTENT_TYPE_SINGLE) + SimultaneousStates::enc(entry),
        FileModel::Vec(entries) => enc_header(CONTENT_TYPE_VEC) + <Vec<
            SimultaneousStates,
        > as Wire>::enc(entries),
    }
}

/// What is in the file with the bytes `b`, and the bytes after it.
pub open spec fn dec_file(b: Seq<u8>) -> KeteResult<(FileModel, Seq<u8>)> {
    match dec_header(b) {
        Ok((content_type, rest)) => if content_type == CONTENT_TYPE_SINGLE {
            match SimultaneousStates::dec(rest) {
                Ok((entry, rest)) => Ok((FileModel::Single(entry), rest)),
                Err(e) => Err(e),
            }
        } else if content_type == CONTENT_TYPE_VEC {
            match <Vec<SimultaneousStates> as Wire>::dec(rest) {
                Ok((entries, rest)) => Ok((FileModel::Vec(entries), rest)),
                Err(e) => Err(e),
            }
        } else {
            Err(Error::IOError(IoFault::UnsupportedContent(content_type)))
        },
        Err(e) => Err(e),
    }
}

impl KeteFileType {
    /// What is kept of the file.
    pub open spec fn model(&self) -> FileModel {
        match self {
            KeteFileType::Single(entry) => FileModel::Single(entry.wire()),
            KeteFileType::Vec(entries) => FileModel::Vec(entries.wire()),
        }
    }
}

/// Append the header of a file.
fn write_header(w: &mut Vec<u8>, content_type: u8)
    ensures
        final(w)@ == old(w)@ + enc_header(content_type),
{
    let ghost start = w@;
    w.push(0x4b);
    w.push(0x45);
    w.push(0x54);
    w.push(0x45);
    assert(w@ =~= start + magic_bytes());
    let _ = (VERSION, content_type).write_to(w);
    assert(w@ =~= start + enc_header(content_type));
}

/// Read and check the header of a file, and return the kind of its content.
fn read_header(r: &mut Reader<'_>) -> (res: KeteResult<u8>)
    ensures
        match dec_header(old(r)@) {
            Ok((content_type, rest)) => res == Ok::<u8, Error>(content_type) && final(r)@ == rest,
            Err(e) => res == Err::<u8, Error>(e),
        },
{
    let magic = match r.take(4) {
        Ok(magic) => magic,
        Err(e) => {
            return Err(e);
        },
    };
    if magic[0] != 0x4b || magic[1] != 0x45 || magic[2] != 0x54 || magic[3] != 0x45 {
        return Err(Error::IOError(IoFault::BadMagic));
    }
    assert(magic@ =~= magic_bytes());
    let version: u16 = match u16::read_from(r) {
        Ok(version) => version,
        Err(e) => {
            return Err(e);
        },
    };
    if version > VERSION {
        return Err(Error::IOError(IoFault::NewerVersion(version)));
    }
    u8::read_from(r)
}

/// Write a file with one collection.
pub fn write_single_kete_file(entry: &SimultaneousStates, w: &mut Vec<u8>) -> (res: KeteResult<()>)
    ensures
        res is Ok,
        final(w)@ == old(w)@ + enc_file(FileModel::Single(entry.wire())),
{
    let ghost start = w@;
    write_header(w, CONTENT_TYPE_SINGLE);
    let _ = entry.write_to(w);
    assert(w@ =~= start + enc_file(FileModel::Single(entry.wire())));
    Ok(())
}

/// Write a file with a list of collections.
pub fn write_vec_kete_file(entries: &[SimultaneousStates], w: &mut Vec<u8>) -> (res: KeteResult<()>)
    ensures
        res is Ok,
        final(w)@ == old(w)@ + enc_file(FileModel::Vec(wire::wires(entries@))),
{
    let ghost start = w@;
    write_header(w, CONTENT_TYPE_VEC);
    bytes::write_le(w, entries.len() as u64, 4);
    wire::write_items(entries, w);
    assert(w@ =~= start + enc_file(FileModel::Vec(wire::wires(entries@))));
    Ok(())
}

/// Read a file.
pub fn read_kete_file(r: &mut Reader<'_>) -> (res: KeteResult<KeteFileType>)
    ensures
        match dec_file(old(r)@) {
            Ok((v, rest)) => res is Ok && res->Ok_0.model() == v && final(r)@ == rest,
            Err(e) => res == Err::<KeteFileType, Error>(e),
        },
{
    match read_header(r) {
        Ok(content_type) => match content_type {
            CONTENT_TYPE_SINGLE => match SimultaneousStates::read_from(r) {
                Ok(entry) => Ok(KeteFileType::Single(Box::new(entry))),
                Err(e) => Err(e),
            },
            CONTENT_TYPE_VEC => match Vec::<SimultaneousStates>::read_from(r) {
                Ok(entries) => Ok(KeteFileType::Vec(entries)),
                Err(e) => Err(e),
            },
            t => Err(Error::IOError(IoFault::UnsupportedContent(t))),
        },
        Err(e) => Err(e),
    }
}

/// The header of a file is read as it was written.
proof fn lemma_header_round_trip(content_type: u8, rest: Seq<u8>)
    ensures
        dec_header(enc_header(content_type) + rest) == Ok::<(u8, Seq<u8>), Error>(
            (content_type, rest),
        ),
{
    let tail = u16::enc(VERSION) + (u8::enc(content_type) + rest);
    assert(enc_header(content_type) + rest =~= magic_bytes() + tail);
    assert((magic_bytes() + tail).take(4) =~= magic_bytes());
    assert((magic_bytes() + tail).skip(4) =~= tail);
    u16::lemma_round_trip(VERSION, u8::enc(content_type) + rest);
    u8::lemma_round_trip(content_type, rest);
}

/// Can a file hold this.
pub open spec fn file_fits(v: FileModel) -> bool {
    match v {
        FileModel::Single(entry) => SimultaneousStates::fits(entry),
        FileModel::Vec(entries) => <Vec<SimultaneousStates> as Wire>::fits(entries),
    }
}

/// Behind the header of a file, its content is read as it was written.
proof fn lemma_content_round_trip<T: Wire>(content_type: u8, v: T::V, rest: Seq<u8>)
    requires
        T::fits(v),
    ensures
        dec_header(enc_header(content_type) + T::enc(v) + rest) == Ok::<(u8, Seq<u8>), Error>(
            (content_type, T::enc(v) + rest),
        ),
        T::dec(T::enc(v) + rest) == Ok::<(T::V, Seq<u8>), Error>((v, rest)),
{
    assert(enc_header(content_type) + T::enc(v) + rest =~= enc_header(content_type) + (T::enc(v)
        + rest));
    lemma_header_round_trip(content_type, T::enc(v) + rest);
    T::lemma_round_trip(v, rest);
}

/// Reading a file gives back what was written, whatever follows it.
pub proof fn law_file_round_trip(v: FileModel, rest: Seq<u8>)
    requires
        file_fits(v),
    ensures
        dec_file(enc_file(v) + rest) == Ok::<(FileModel, Seq<u8>), Error>((v, rest)),
{
    match v {
        FileModel::Single(entry) => {
            lemma_content_round_trip::<SimultaneousStates>(CONTENT_TYPE_SINGLE, entry, rest);
        },
        FileModel::Vec(entries) => {
            lemma_content_round_trip::<Vec<SimultaneousStates>>(CONTENT_TYPE_VEC, entries, rest);
        },
    }
}

/// A value of any type of the format is read as it was written, whatever follows it.
pub proof fn law_value_round_trip<T: Wire>(v: T::V, rest: Seq<u8>)
    requires
        T::fits(v),
    ensures
        T::dec(T::enc(v) + rest) == Ok::<(T::V, Seq<u8>), Error>((v, rest)),
{
    T::lemma_round_trip(v, rest);
}

/// Bytes which do not start with the magic bytes are not taken for a file.
pub proof fn law_bad_magic_refused(b: Seq<u8>)
    requires
        b.len() >= 4,
        b.take(4) != magic_bytes(),
    ensures
        dec_file(b) == Err::<(FileModel, Seq<u8>), Error>(Error::IOError(IoFault::BadMagic)),
{
}

/// A file of a later version is refused, whatever else it holds.
pub proof fn law_newer_version_refused(version: u16, rest: Seq<u8>)
    requires
        version > VERSION,
    ensures
        dec_file(magic_bytes() + (u16::enc(version) + rest)) == Err::<(FileModel, Seq<u8>), Error>(
            Error::IOError(IoFault::NewerVersion(version)),
        ),
{
    let tail = u16::enc(version) + rest;
    assert((magic_bytes() + tail).take(4) =~= magic_bytes());
    assert((magic_bytes() + tail).skip(4) =~= tail);
    u16::lemma_round_trip(version, rest);
}

/// A file with content of a kind which is not known is refused.
pub proof fn law_unknown_content_refused(content_type: u8, rest: Seq<u8>)
    requires
        content_type != CONTENT_TYPE_SINGLE,
        content_type != CONTENT_TYPE_VEC,
    ensures
        dec_file(enc_header(content_type) + rest) == Err::<(FileModel, Seq<u8>), Error>(
            Error::IOError(IoFault::UnsupportedContent(content_type)),
        ),
{
    lemma_header_round_trip(content_type, rest);
}

} // verus!
