//! File metadata and permission bits.

use crate::abstracts::MetadataTrait;
use crate::clock::current_timestamp_secs;
use vstd::prelude::*;

verus! {

/// What a directory entry stands for.
#[derive(Clone, Copy, Debug, PartialEq, Eq, Structural)]
pub enum FileType {
    /// A regular file.
    File,
    /// A directory.
    Dir,
    /// A symbolic link.
    Link,
}

/// Every bit that a permission mask may hold: nine bits, three each for the
/// three classes.
pub const PERMISSION_MASK: u16 = 0o777;

/// The single permission bits.
#[derive(Clone, Copy, Debug, PartialEq, Eq, Structural)]
pub enum Permissions {
    GroupRead,
    GroupWrite,
    GroupExecute,
    UserRead,
    UserWrite,
    UserExecute,
    OtherRead,
    OtherWrite,
    OtherExecute,
}

impl Permissions {
    /// The bit that a permission stands for.
    pub open spec fn bit(self) -> u16 {
        match self {
            Permissions::GroupRead => 0o400,
            Permissions::GroupWrite => 0o200,
            Permissions::GroupExecute => 0o100,
            Permissions::UserRead => 0o40,
            Permissions::UserWrite => 0o20,
            Permissions::UserExecute => 0o10,
            Permissions::OtherRead => 0o4,
            Permissions::OtherWrite => 0o2,
            Permissions::OtherExecute => 0o1,
        }
    }

    /// The bit that a permission stands for.
    pub fn bits(self) -> (bits: u16)
        ensures
            bits == self.bit(),
            bits <= PERMISSION_MASK,
    {
        match self {
            Permissions::GroupRead => 0o400,
            Permissions::GroupWrite => 0o200,
            Permissions::GroupExecute => 0o100,
            Permissions::UserRead => 0o40,
            Permissions::UserWrite => 0o20,
            Permissions::UserExecute => 0o10,
            Permissions::OtherRead => 0o4,
            Permissions::OtherWrite => 0o2,
            Permissions::OtherExecute => 0o1,
        }
    }

    /// Read, write and execute for the user class: `0o70`.
    pub fn default_user_permissions() -> (mask: u16)
        ensures
            mask == 0o70,
    {
        assert(0o40u16 | 0o20u16 | 0o10u16 == 0o70u16) by (bit_vector);
        Permissions::UserRead.bits() | Permissions::UserWrite.bits()
            | Permissions::UserExecute.bits()
    }

    /// Read, write and execute for the group class, with read and execute
    /// for others: `0o705`.
    pub fn default_group_permissions() -> (mask: u16)
        ensures
            mask == 0o705,
    {
        assert(0o400u16 | 0o200u16 | 0o100u16 | 0o4u16 | 0o1u16 == 0o705u16) by (bit_vector);
        Permissions::GroupRead.bits() | Permissions::GroupWrite.bits()
            | Permissions::GroupExecute.bits() | Permissions::OtherRead.bits()
            | Permissions::OtherExecute.bits()
    }

    /// Read, write and execute for others: `0o7`.
    pub fn default_other_permissions() -> (mask: u16)
        ensures
            mask == 0o7,
    {
        assert(0o4u16 | 0o2u16 | 0o1u16 == 0o7u16) by (bit_vector);
        Permissions::OtherRead.bits() | Permissions::OtherWrite.bits()
            | Permissions::OtherExecute.bits()
    }

    /// Every permission for every class: `0o777`.
    pub fn default_file_permissions() -> (mask: u16)
        ensures
            mask == PERMISSION_MASK,
    {
        assert(0o70u16 | 0o705u16 | 0o7u16 == 0o777u16) by (bit_vector);
        Self::default_user_permissions() | Self::default_group_permissions()
            | Self::default_other_permissions()
    }

    /// Read and execute for others, without write: `0o5`.
    pub fn other_cant_write() -> (mask: u16)
        ensures
            mask == 0o5,
    {
        assert(0o4u16 | 0o1u16 == 0o5u16) by (bit_vector);
        Permissions::OtherRead.bits() | Permissions::OtherExecute.bits()
    }

    /// Read and execute for the group class, without write: `0o500`.
    pub fn group_cant_write() -> (mask: u16)
        ensures
            mask == 0o500,
    {
        assert(0o400u16 | 0o100u16 == 0o500u16) by (bit_vector);
        Permissions::GroupRead.bits() | Permissions::GroupExecute.bits()
    }
}

/// The metadata of a file or directory.
pub struct Metadata {
    /// Whether this is a file, a directory or a link.
    pub file_type: FileType,
    /// Owning user.
    pub uid: u64,
    /// Owning group.
    pub gid: u64,
    /// Content size in bytes.
    pub size: usize,
    /// Permission bits, within `PERMISSION_MASK`.
    pub permissions: u16,
    /// Number of directory entries that name the inode.
    pub links_count: usize,
    /// Creation time, in seconds since the Unix epoch.
    pub create_at: u64,
    /// Time of the last change, in seconds since the Unix epoch.
    pub modified_at: u64,
    /// Content version; grows with every change of content.
    pub version: u64,
    /// Tombstoned.
    pub is_delete: bool,
    /// Content hash of the first block; empty where there is none.
    pub first_block_hash: String,
}

impl MetadataTrait for Metadata {

}

impl Metadata {
    /// Everything in the metadata but its two timestamps.
    pub open spec fn same_but_times(self, other: Metadata) -> bool {
        &&& self.file_type == other.file_type
        &&& self.uid == other.uid
        &&& self.gid == other.gid
        &&& self.size == other.size
        &&& self.permissions == other.permissions
        &&& self.links_count == other.links_count
        &&& self.version == other.version
        &&& self.is_delete == other.is_delete
        &&& self.first_block_hash@ == other.first_block_hash@
    }

    /// Everything in the metadata but the recorded first hash.
    pub open spec fn same_but_hash(self, other: Metadata) -> bool {
        &&& self.file_type == other.file_type
        &&& self.uid == other.uid
        &&& self.gid == other.gid
        &&& self.size == other.size
        &&& self.permissions == other.permissions
        &&& self.links_count == other.links_count
        &&& self.version == other.version
        &&& self.is_delete == other.is_delete
        &&& self.create_at == other.create_at
        &&& self.modified_at == other.modified_at
    }

    /// The metadata of a new, empty entry of the given type, made at the
    /// time `now`: owned by user and group 0, every permission set, no
    /// link, version 0, created and last changed at `now`.
    pub fn at(file_type: FileType, now: u64) -> (metadata: Metadata)
        ensures
            metadata.file_type == file_type,
            metadata.uid == 0,
            metadata.gid == 0,
            metadata.size == 0,
            metadata.permissions == PERMISSION_MASK,
            metadata.links_count == 0,
            metadata.create_at == now,
            metadata.modified_at == now,
            metadata.version == 0,
            !metadata.is_delete,
            metadata.first_block_hash@ == Seq::<char>::empty(),
    {
        Metadata {
            file_type,
            uid: 0,
            gid: 0,
            size: 0,
            permissions: Permissions::default_file_permissions(),
            links_count: 0,
            create_at: now,
            modified_at: now,
            version: 0,
            is_delete: false,
            first_block_hash: String::new(),
        }
    }

    /// The metadata of a new, empty entry of the given type, as `at` makes
    /// it, created and last changed at the one reading of the clock.
    pub fn new(file_type: FileType) -> (metadata: Metadata)
        ensures
            metadata.file_type == file_type,
            metadata.uid == 0,
            metadata.gid == 0,
            metadata.size == 0,
            metadata.permissions == PERMISSION_MASK,
            metadata.links_count == 0,
            metadata.create_at == metadata.modified_at,
            metadata.version == 0,
            !metadata.is_delete,
            metadata.first_block_hash@ == Seq::<char>::empty(),
    {
        Metadata::at(file_type, current_timestamp_secs())
    }

    /// A copy of the metadata.
    pub fn duplicate(&self) -> (copy: Metadata)
        ensures
            copy.same_but_times(*self),
            copy.create_at == self.create_at,
            copy.modified_at == self.modified_at,
    {
        Metadata {
            file_type: self.file_type,
            uid: self.uid,
            gid: self.gid,
            size: self.size,
            permissions: self.permissions,
            links_count: self.links_count,
            create_at: self.create_at,
            modified_at: self.modified_at,
            version: self.version,
            is_delete: self.is_delete,
            first_block_hash: self.first_block_hash.clone(),
        }
    }
}

} // verus!
