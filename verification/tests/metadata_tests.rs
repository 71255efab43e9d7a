use blockfs::metadata::{FileType, Metadata, Permissions, PERMISSION_MASK};

#[test]
fn permission_bits_have_their_octal_values() {
    assert_eq!(Permissions::GroupRead.bits(), 0o400);
    assert_eq!(Permissions::GroupWrite.bits(), 0o200);
    assert_eq!(Permissions::GroupExecute.bits(), 0o100);
    assert_eq!(Permissions::UserRead.bits(), 0o40);
    assert_eq!(Permissions::UserWrite.bits(), 0o20);
    assert_eq!(Permissions::UserExecute.bits(), 0o10);
    assert_eq!(Permissions::OtherRead.bits(), 0o4);
    assert_eq!(Permissions::OtherWrite.bits(), 0o2);
    assert_eq!(Permissions::OtherExecute.bits(), 0o1);
}

#[test]
fn default_permissions_have_their_octal_values() {
    assert_eq!(Permissions::default_user_permissions(), 0o70);
    assert_eq!(Permissions::default_group_permissions(), 0o705);
    assert_eq!(Permissions::default_other_permissions(), 0o7);
    assert_eq!(Permissions::default_file_permissions(), 0o777);
    assert_eq!(Permissions::other_cant_write(), 0o5);
    assert_eq!(Permissions::group_cant_write(), 0o500);
    assert_eq!(PERMISSION_MASK, 0o777);
}

#[test]
fn new_metadata_is_empty() {
    let metadata = Metadata::new(FileType::Dir);
    assert_eq!(metadata.file_type, FileType::Dir);
    assert_eq!(metadata.uid, 0);
    assert_eq!(metadata.gid, 0);
    assert_eq!(metadata.size, 0);
    assert_eq!(metadata.permissions, 0o777);
    assert_eq!(metadata.links_count, 0);
    assert_eq!(metadata.version, 0);
    assert!(!metadata.is_delete);
    assert_eq!(metadata.first_block_hash, "");
    assert!(metadata.create_at > 1_577_836_800);
    assert!(metadata.modified_at >= metadata.create_at);
}

#[test]
fn duplicate_copies_every_field() {
    let mut metadata = Metadata::new(FileType::Link);
    metadata.uid = 7;
    metadata.size = 99;
    metadata.first_block_hash = "abc".to_string();
    let copy = metadata.duplicate();
    assert_eq!(copy.file_type, FileType::Link);
    assert_eq!(copy.uid, 7);
    assert_eq!(copy.size, 99);
    assert_eq!(copy.first_block_hash, "abc");
    assert_eq!(copy.create_at, metadata.create_at);
    assert_eq!(copy.modified_at, metadata.modified_at);
}

#[test]
fn metadata_made_at_a_time_is_created_and_changed_then() {
    let metadata = Metadata::at(FileType::File, 1_700_000_000);
    assert_eq!(metadata.create_at, 1_700_000_000);
    assert_eq!(metadata.modified_at, 1_700_000_000);
    assert_eq!(metadata.file_type, FileType::File);
    assert_eq!(metadata.uid, 0);
    assert_eq!(metadata.gid, 0);
    assert_eq!(metadata.size, 0);
    assert_eq!(metadata.permissions, 0o777);
    assert_eq!(metadata.links_count, 0);
    assert_eq!(metadata.version, 0);
    assert!(!metadata.is_delete);
    assert_eq!(metadata.first_block_hash, "");
}

#[test]
fn new_metadata_is_created_and_changed_at_one_reading() {
    let metadata = Metadata::new(FileType::File);
    assert_eq!(metadata.create_at, metadata.modified_at);
}
