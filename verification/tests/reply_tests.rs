use pinger::{Address, PingError, PingReply, ReplyStatus};

fn reply(rtt: u32) -> Result<PingReply, PingError> {
    Ok(PingReply { address: Address::V4(0x0808_0808), rtt })
}

#[test]
fn reply_gives_its_rtt() {
    assert_eq!(ReplyStatus::from(reply(17)), ReplyStatus::SuccessTimed(17));
    assert_eq!(ReplyStatus::from(reply(0)), ReplyStatus::SuccessTimed(0));
}

#[test]
fn timeout_stays_timeout() {
    assert_eq!(ReplyStatus::from(Err(PingError::TimedOut)), ReplyStatus::TimedOut);
}

#[test]
fn other_errors_are_failures() {
    let errors = vec![
        PingError::BadParameter("data".to_string()),
        PingError::OsError(13, "denied".to_string()),
        PingError::IpError(11003),
        PingError::IoPending,
        PingError::DataSizeTooBig(65500),
    ];
    for e in errors {
        assert_eq!(ReplyStatus::from(Err(e)), ReplyStatus::OtherFailure);
    }
}

#[test]
fn into_gives_the_same_status() {
    let s: ReplyStatus = reply(3).into();
    assert_eq!(s, ReplyStatus::SuccessTimed(3));
}
