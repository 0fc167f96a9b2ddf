//! The objects that are handed to the native library: which interfaces they
//! have, how long they live, and what the one that opens archives answers.

use vstd::prelude::*;
use vstd::string::*;
use crate::ffi;
use crate::ffi::{
    E_ABORT,
    E_FAIL,
    E_INVALIDARG,
    E_NOINTERFACE,
    Guid,
    KPID_IS_DIR,
    KPID_NAME,
    KPID_SIZE,
    MAX_ARCHIVE_PATH_UNITS,
    PropVariant,
    S_FALSE,
    S_OK,
};
use crate::text;

verus! {

// ---------------------------------------------------------------------------
// Interfaces
// ---------------------------------------------------------------------------

/// An interface, by the two numbers that tell those of the library apart.
#[derive(Debug, Clone, Copy, PartialEq, Eq, Structural)]
pub enum Interface {
    Unknown,
    Progress,
    SequentialInStream,
    InStream,
    SequentialOutStream,
    OutStream,
    CryptoGetTextPassword,
    CryptoGetTextPassword2,
    ArchiveOpenCallback,
    ArchiveExtractCallback,
    ArchiveOpenVolumeCallback,
    ArchiveUpdateCallback,
}

/// The two numbers of an interface of the library.
pub open spec fn interface_numbers(interface: Interface) -> (u8, u8) {
    match interface {
        Interface::Unknown => (0, 0),
        Interface::Progress => (0, 0x05),
        Interface::SequentialInStream => (0x03, 0x01),
        Interface::SequentialOutStream => (0x03, 0x02),
        Interface::InStream => (0x03, 0x03),
        Interface::OutStream => (0x03, 0x04),
        Interface::CryptoGetTextPassword => (0x05, 0x10),
        Interface::CryptoGetTextPassword2 => (0x05, 0x11),
        Interface::ArchiveOpenCallback => (0x06, 0x10),
        Interface::ArchiveExtractCallback => (0x06, 0x20),
        Interface::ArchiveOpenVolumeCallback => (0x06, 0x30),
        Interface::ArchiveUpdateCallback => (0x06, 0x80),
    }
}

/// The identifier of an interface.
pub open spec fn interface_id(interface: Interface) -> Guid {
    if interface == Interface::Unknown {
        Guid { data1: 0, data2: 0, data3: 0, data4: (0xC0, 0, 0, 0, 0, 0, 0, 0x46) }
    } else {
        let (group, number) = interface_numbers(interface);
        Guid {
            data1: 0x2317_0F69,
            data2: 0x40C1,
            data3: 0x278A,
            data4: (0, 0, 0, group, 0, number, 0, 0),
        }
    }
}

/// The interface that an identifier stands for.
pub fn known_interface(id: Guid) -> (interface: Option<Interface>)
    ensures
        match interface {
            Some(interface) => interface_id(interface) == id,
            None => forall|interface: Interface| #[trigger] interface_id(interface) != id,
        },
{
    let d = id.data4;
    if id.data1 == 0 && id.data2 == 0 && id.data3 == 0 && d.0 == 0xC0 && d.1 == 0 && d.2 == 0
        && d.3 == 0 && d.4 == 0 && d.5 == 0 && d.6 == 0 && d.7 == 0x46 {
        return Some(Interface::Unknown);
    }
    if id.data1 != 0x2317_0F69 || id.data2 != 0x40C1 || id.data3 != 0x278A || d.0 != 0 || d.1 != 0
        || d.2 != 0 || d.4 != 0 || d.6 != 0 || d.7 != 0 {
        return None;
    }
    match (d.3, d.5) {
        (0, 0x05) => Some(Interface::Progress),
        (0x03, 0x01) => Some(Interface::SequentialInStream),
        (0x03, 0x02) => Some(Interface::SequentialOutStream),
        (0x03, 0x03) => Some(Interface::InStream),
        (0x03, 0x04) => Some(Interface::OutStream),
        (0x05, 0x10) => Some(Interface::CryptoGetTextPassword),
        (0x05, 0x11) => Some(Interface::CryptoGetTextPassword2),
        (0x06, 0x10) => Some(Interface::ArchiveOpenCallback),
        (0x06, 0x20) => Some(Interface::ArchiveExtractCallback),
        (0x06, 0x30) => Some(Interface::ArchiveOpenVolumeCallback),
        (0x06, 0x80) => Some(Interface::ArchiveUpdateCallback),
        _ => None,
    }
}

/// An object that is handed to the library.
#[derive(Debug, Clone, Copy, PartialEq, Eq, Structural)]
pub enum Object {
    /// Opens archives.
    Open,
    Extract,
    Update,
    InStream,
    OutStream,
    /// The part of an object that gives passwords for reading.
    Crypto,
    /// The part of an object that gives passwords for writing.
    Crypto2,
}

/// The part of an object that has an interface.
#[derive(Debug, Clone, Copy, PartialEq, Eq, Structural)]
pub enum Part {
    /// The object itself.
    Whole,
    /// The part that finds volumes.
    Volumes,
    /// The part that gives passwords.
    Passwords,
}

/// The part of an object that has an interface, where it has it.
pub open spec fn part_of(object: Object, interface: Interface) -> Option<Part> {
    if interface == Interface::Unknown {
        Some(Part::Whole)
    } else {
        match (object, interface) {
            (Object::Open, Interface::ArchiveOpenCallback) => Some(Part::Whole),
            (Object::Open, Interface::Progress) => Some(Part::Whole),
            (Object::Open, Interface::ArchiveOpenVolumeCallback) => Some(Part::Volumes),
            (Object::Open, Interface::CryptoGetTextPassword) => Some(Part::Passwords),
            (Object::Extract, Interface::ArchiveExtractCallback) => Some(Part::Whole),
            (Object::Extract, Interface::Progress) => Some(Part::Whole),
            (Object::Extract, Interface::CryptoGetTextPassword) => Some(Part::Passwords),
            (Object::Update, Interface::ArchiveUpdateCallback) => Some(Part::Whole),
            (Object::Update, Interface::Progress) => Some(Part::Whole),
            (Object::Update, Interface::CryptoGetTextPassword2) => Some(Part::Passwords),
            (Object::InStream, Interface::SequentialInStream) => Some(Part::Whole),
            (Object::InStream, Interface::InStream) => Some(Part::Whole),
            (Object::OutStream, Interface::SequentialOutStream) => Some(Part::Whole),
            (Object::OutStream, Interface::OutStream) => Some(Part::Whole),
            (Object::Crypto, Interface::CryptoGetTextPassword) => Some(Part::Whole),
            (Object::Crypto2, Interface::CryptoGetTextPassword2) => Some(Part::Whole),
            _ => None,
        }
    }
}

/// What an object answers when it is asked for an interface: the part that has
/// it, which is counted once more.
pub fn query_interface(object: Object, id: Option<Guid>, has_storage: bool) -> (answer: Result<
    Part,
    i32,
>)
    ensures
        match answer {
            Ok(part) => has_storage && id is Some && exists|interface: Interface|
                #[trigger] interface_id(interface) == id->0 && part_of(object, interface) == Some(
                    part,
                ),
            Err(code) => if !has_storage || id is None {
                code == E_INVALIDARG
            } else {
                code == E_NOINTERFACE && forall|interface: Interface| #[trigger]
                    interface_id(interface) == id->0 ==> part_of(object, interface) is None
            },
        },
{
    let id: Guid = match id {
        Some(id) => {
            if !has_storage {
                return Err(E_INVALIDARG);
            }
            id
        },
        None => {
            return Err(E_INVALIDARG);
        },
    };
    let interface: Interface = match known_interface(id) {
        Some(interface) => interface,
        None => {
            return Err(E_NOINTERFACE);
        },
    };
    proof {
        assert forall|other: Interface| #[trigger] interface_id(other) == id implies other
            == interface by {
            lemma_interfaces_differ(other, interface);
        }
    }
    let part: Option<Part> = match (object, interface) {
        (_, Interface::Unknown) => Some(Part::Whole),
        (Object::Open, Interface::ArchiveOpenCallback) => Some(Part::Whole),
        (Object::Open, Interface::Progress) => Some(Part::Whole),
        (Object::Open, Interface::ArchiveOpenVolumeCallback) => Some(Part::Volumes),
        (Object::Open, Interface::CryptoGetTextPassword) => Some(Part::Passwords),
        (Object::Extract, Interface::ArchiveExtractCallback) => Some(Part::Whole),
        (Object::Extract, Interface::Progress) => Some(Part::Whole),
        (Object::Extract, Interface::CryptoGetTextPassword) => Some(Part::Passwords),
        (Object::Update, Interface::ArchiveUpdateCallback) => Some(Part::Whole),
        (Object::Update, Interface::Progress) => Some(Part::Whole),
        (Object::Update, Interface::CryptoGetTextPassword2) => Some(Part::Passwords),
        (Object::InStream, Interface::SequentialInStream) => Some(Part::Whole),
        (Object::InStream, Interface::InStream) => Some(Part::Whole),
        (Object::OutStream, Interface::SequentialOutStream) => Some(Part::Whole),
        (Object::OutStream, Interface::OutStream) => Some(Part::Whole),
        (Object::Crypto, Interface::CryptoGetTextPassword) => Some(Part::Whole),
        (Object::Crypto2, Interface::CryptoGetTextPassword2) => Some(Part::Whole),
        _ => None,
    };
    match part {
        Some(part) => Ok(part),
        None => Err(E_NOINTERFACE),
    }
}

/// Interfaces have identifiers of their own.
proof fn lemma_interfaces_differ(a: Interface, b: Interface)
    requires
        interface_id(a) == interface_id(b),
    ensures
        a == b,
{
    let first = interface_id(a);
    let second = interface_id(b);
    assert(first.data1 == second.data1);
    assert(first.data4.3 == second.data4.3);
    assert(first.data4.5 == second.data4.5);
}

/// How many references to an object there are.
#[derive(Debug, Clone, Copy, PartialEq, Eq, Structural)]
pub struct References {
    pub count: u32,
}

impl References {
    /// One more reference. Returns how many there are.
    pub fn add_ref(&mut self) -> (count: u32)
        requires
            old(self).count < u32::MAX,
        ensures
            final(self).count == old(self).count + 1,
            count == final(self).count,
    {
        self.count = self.count + 1;
        self.count
    }

    /// One reference less. Returns how many are left; an object without any
    /// goes.
    pub fn release(&mut self) -> (count: u32)
        requires
            old(self).count > 0,
        ensures
            final(self).count == old(self).count - 1,
            count == final(self).count,
    {
        self.count = self.count - 1;
        self.count
    }
}

// ---------------------------------------------------------------------------
// Opening
// ---------------------------------------------------------------------------

/// Whether opening goes on.
pub fn open_set_completed(cancelled: bool) -> (code: i32)
    ensures
        code == if cancelled {
            E_ABORT
        } else {
            S_OK
        },
{
    if cancelled {
        E_ABORT
    } else {
        S_OK
    }
}

/// A property of the archive that is opened: its file name, its size, and that
/// it is no directory. `size` is missing where the file cannot be measured.
pub fn open_get_property(prop_id: u32, name: &Option<String>, size: Option<u64>) -> (value: Result<
    PropVariant,
    i32,
>)
    ensures
        match value {
            Ok(value) => value@ == if prop_id == KPID_NAME {
                ffi::PropView::Bstr(
                    text::utf16(
                        match *name {
                            Some(name) => name@,
                            None => Seq::empty(),
                        },
                    ),
                )
            } else if prop_id == KPID_IS_DIR {
                ffi::PropView::Bool(false)
            } else if prop_id == KPID_SIZE {
                ffi::PropView::U64(size->0)
            } else {
                ffi::PropView::Empty
            } && !(prop_id == KPID_SIZE && size is None),
            Err(code) => code == E_FAIL && prop_id == KPID_SIZE && size is None,
        },
{
    if prop_id == KPID_NAME {
        match name {
            Some(name) => Ok(PropVariant::bstr(name.as_str())),
            None => {
                let none = String::new();
                proof {
                    assert(none@ =~= Seq::<char>::empty());
                }
                Ok(PropVariant::bstr(none.as_str()))
            },
        }
    } else if prop_id == KPID_IS_DIR {
        Ok(PropVariant::bool_value(false))
    } else if prop_id == KPID_SIZE {
        match size {
            Some(size) => Ok(PropVariant::u64_value(size)),
            None => Err(E_FAIL),
        }
    } else {
        Ok(PropVariant::empty())
    }
}

/// Whether a name names a file beside the archive: it is one name, and means
/// neither a folder nor a drive nor a stream.
pub open spec fn stays_beside(name: Seq<char>) -> bool {
    &&& name.len() > 0
    &&& name != "."@
    &&& name != ".."@
    &&& !name.contains('/')
    &&& !name.contains('\\')
    &&& !name.contains(':')
}

/// [`stays_beside`], executable.
pub fn is_volume_name(name: &str) -> (yes: bool)
    ensures
        yes == stays_beside(name@),
{
    name.unicode_len() > 0 && !text::same_text(name, ".") && !text::same_text(name, "..")
        && !text::contains_char(name, '/') && !text::contains_char(name, '\\')
        && !text::contains_char(name, ':')
}

/// The name of the volume that the library asks for, by its units up to the
/// zero that ends them, or the code that refuses it. `units` is missing where
/// the library gave no name.
pub fn volume_name(units: Option<&Vec<u16>>, has_storage: bool, cancelled: bool) -> (name: Result<
    String,
    i32,
>)
    ensures
        match name {
            Ok(name) => {
                &&& has_storage && units is Some && !cancelled
                &&& units->0@.len() < MAX_ARCHIVE_PATH_UNITS
                &&& name@ == ffi::lossy_utf16(units->0@)
                &&& stays_beside(name@)
            },
            Err(code) => if !has_storage || units is None {
                code == E_INVALIDARG
            } else if cancelled {
                code == E_ABORT
            } else {
                code == E_INVALIDARG && (units->0@.len() >= MAX_ARCHIVE_PATH_UNITS
                    || !stays_beside(ffi::lossy_utf16(units->0@)))
            },
        },
{
    let units: &Vec<u16> = match units {
        Some(units) => {
            if !has_storage {
                return Err(E_INVALIDARG);
            }
            units
        },
        None => {
            return Err(E_INVALIDARG);
        },
    };
    if cancelled {
        return Err(E_ABORT);
    }
    if units.len() >= MAX_ARCHIVE_PATH_UNITS {
        return Err(E_INVALIDARG);
    }
    let name: String = ffi::lossy_utf16_text(units.as_slice());
    if is_volume_name(name.as_str()) {
        Ok(name)
    } else {
        Err(E_INVALIDARG)
    }
}

/// What came of opening a volume.
#[derive(Debug, Clone, Copy, PartialEq, Eq, Structural)]
pub enum VolumeOpened {
    Opened,
    Missing,
    Failed,
}

/// The code that the library is answered with: a missing volume is no failure.
pub fn open_get_stream(opened: VolumeOpened) -> (code: i32)
    ensures
        code == match opened {
            VolumeOpened::Opened => S_OK,
            VolumeOpened::Missing => S_FALSE,
            VolumeOpened::Failed => E_FAIL,
        },
{
    match opened {
        VolumeOpened::Opened => S_OK,
        VolumeOpened::Missing => S_FALSE,
        VolumeOpened::Failed => E_FAIL,
    }
}

/// Each object answers for its own interfaces: the callbacks of opening,
/// extracting and updating for their progress too, and for passwords through a
/// part of theirs; streams for reading or writing, with or without moving.
pub proof fn law_objects_answer_for_their_interfaces(object: Object)
    ensures
        part_of(object, Interface::Unknown) == Some(Part::Whole),
        part_of(Object::Open, Interface::ArchiveOpenCallback) == Some(Part::Whole),
        part_of(Object::Open, Interface::ArchiveOpenVolumeCallback) == Some(Part::Volumes),
        part_of(Object::Open, Interface::CryptoGetTextPassword) == Some(Part::Passwords),
        part_of(Object::Extract, Interface::ArchiveExtractCallback) == Some(Part::Whole),
        part_of(Object::Extract, Interface::CryptoGetTextPassword) == Some(Part::Passwords),
        part_of(Object::Update, Interface::ArchiveUpdateCallback) == Some(Part::Whole),
        part_of(Object::Update, Interface::CryptoGetTextPassword2) == Some(Part::Passwords),
        part_of(Object::InStream, Interface::SequentialInStream) == Some(Part::Whole),
        part_of(Object::InStream, Interface::InStream) == Some(Part::Whole),
        part_of(Object::OutStream, Interface::SequentialOutStream) == Some(Part::Whole),
        part_of(Object::OutStream, Interface::OutStream) == Some(Part::Whole),
        part_of(Object::Crypto, Interface::CryptoGetTextPassword) == Some(Part::Whole),
        part_of(Object::Crypto2, Interface::CryptoGetTextPassword2) == Some(Part::Whole),
        object == Object::Open || object == Object::Extract || object == Object::Update
            ==> part_of(object, Interface::Progress) == Some(Part::Whole),
        object == Object::InStream || object == Object::OutStream ==> part_of(
            object,
            Interface::Progress,
        ) is None,
        part_of(Object::InStream, Interface::OutStream) is None,
        part_of(Object::OutStream, Interface::InStream) is None,
        part_of(Object::Extract, Interface::CryptoGetTextPassword2) is None,
        part_of(Object::Update, Interface::CryptoGetTextPassword) is None,
{
}

/// No two interfaces have the same identifier.
pub proof fn law_interfaces_have_their_own_identifiers(a: Interface, b: Interface)
    requires
        a != b,
    ensures
        interface_id(a) != interface_id(b),
{
}

/// The numbers of the interfaces, by their group.
pub proof fn law_numbers_of_interfaces()
    ensures
        interface_id(Interface::Progress).data4 == (0u8, 0u8, 0u8, 0u8, 0u8, 5u8, 0u8, 0u8),
        interface_id(Interface::SequentialInStream).data4 == (0u8, 0u8, 0u8, 3u8, 0u8, 1u8, 0u8, 0u8),
        interface_id(Interface::SequentialOutStream).data4 == (0u8, 0u8, 0u8, 3u8, 0u8, 2u8, 0u8, 0u8),
        interface_id(Interface::InStream).data4 == (0u8, 0u8, 0u8, 3u8, 0u8, 3u8, 0u8, 0u8),
        interface_id(Interface::OutStream).data4 == (0u8, 0u8, 0u8, 3u8, 0u8, 4u8, 0u8, 0u8),
        interface_id(Interface::CryptoGetTextPassword).data4 == (0u8, 0u8, 0u8, 5u8, 0u8, 0x10u8, 0u8, 0u8),
        interface_id(Interface::CryptoGetTextPassword2).data4 == (0u8, 0u8, 0u8, 5u8, 0u8, 0x11u8, 0u8, 0u8),
        interface_id(Interface::ArchiveOpenCallback).data4 == (0u8, 0u8, 0u8, 6u8, 0u8, 0x10u8, 0u8, 0u8),
        interface_id(Interface::ArchiveExtractCallback).data4 == (0u8, 0u8, 0u8, 6u8, 0u8, 0x20u8, 0u8, 0u8),
        interface_id(Interface::ArchiveOpenVolumeCallback).data4 == (0u8, 0u8, 0u8, 6u8, 0u8, 0x30u8, 0u8, 0u8),
        interface_id(Interface::ArchiveUpdateCallback).data4 == (0u8, 0u8, 0u8, 6u8, 0u8, 0x80u8, 0u8, 0u8),
{
}

/// A volume that an archive names lies beside it: a name without separators,
/// drives and dots that lead elsewhere.
pub proof fn law_volumes_lie_beside_the_archive(name: Seq<char>)
    ensures
        stays_beside(name) <==> name.len() > 0 && name != "."@ && name != ".."@ && (forall|k: int|
            0 <= k < name.len() ==> name[k] != '/' && name[k] != '\\' && name[k] != ':'),
{
    if stays_beside(name) {
        assert forall|k: int| 0 <= k < name.len() implies name[k] != '/' && name[k] != '\\'
            && name[k] != ':' by {
            assert(name.contains(name[k]));
        }
    }
}

} // verus!
