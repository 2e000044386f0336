use vault_watch::scsi::worker::{RequestError, SgIoRequest};
use vault_watch::scsi::{LogPage, ReadOnlyCommand, VpdPage};
use vault_watch::timing::TimeSpan;

#[test]
fn request_limits_are_enforced_before_worker_submission() {
    let command = ReadOnlyCommand::InquiryVpd {
        page: VpdPage::Supported,
        allocation_len: 64,
    };
    assert!(SgIoRequest::new(command, 32, TimeSpan::from_secs(2)).is_ok());
    assert_eq!(
        SgIoRequest::new(command, 0, TimeSpan::from_secs(2)),
        Err(RequestError::SenseLengthOutOfRange)
    );
    assert_eq!(
        SgIoRequest::new(command, 32, TimeSpan::from_millis(99)),
        Err(RequestError::TimeoutOutOfRange)
    );
    assert_eq!(
        SgIoRequest::new(command, 32, TimeSpan::from_secs(31)),
        Err(RequestError::TimeoutOutOfRange)
    );
}

#[test]
fn request_data_length_follows_the_command() {
    let request = SgIoRequest::new(
        ReadOnlyCommand::LogSense {
            page: LogPage::Temperature,
            allocation_len: 512,
        },
        32,
        TimeSpan::from_secs(2),
    )
    .unwrap();
    assert_eq!(request.data_len, 512);
    assert_eq!(request.sense_len, 32);
    assert!(SgIoRequest::new(ReadOnlyCommand::TestUnitReady, 32, TimeSpan::from_millis(100)).is_ok());
    assert!(SgIoRequest::new(ReadOnlyCommand::TestUnitReady, 253, TimeSpan::from_secs(30)).is_err());
}
