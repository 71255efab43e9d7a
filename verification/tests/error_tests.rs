use blockfs::error::Error;

#[test]
fn connector_failure_shows_the_text_of_the_backend() {
    let error = Error::ConnectorFailure("disk full".to_string());
    assert_eq!(error.message(), "I/O error: disk full");
    assert_eq!(Error::ConnectorFailure(String::new()).message(), "I/O error: ");
}

#[test]
fn every_error_has_its_own_message() {
    let errors = vec![
        Error::TooLarge,
        Error::OutOfBounds,
        Error::OutOfRange,
        Error::AlreadyExists,
        Error::NotFound,
        Error::NotEmpty,
        Error::NoParent,
        Error::InsufficientCapacity,
        Error::NotAllocated,
        Error::ConnectorFailure("x".to_string()),
    ];
    let messages: Vec<String> = errors.iter().map(|error| error.message()).collect();
    assert_eq!(messages[0], "data exceeds block capacity");
    assert_eq!(messages[1], "write past the end of the block");
    assert_eq!(messages[2], "read past the valid content");
    assert_eq!(messages[3], "entry already exists");
    assert_eq!(messages[4], "not found");
    assert_eq!(messages[5], "directory not empty");
    assert_eq!(messages[6], "no parent directory");
    assert_eq!(messages[7], "not enough free blocks");
    assert_eq!(messages[8], "block is not allocated");
    for (i, first) in messages.iter().enumerate() {
        for second in messages.iter().skip(i + 1) {
            assert_ne!(first, second);
        }
    }
}
