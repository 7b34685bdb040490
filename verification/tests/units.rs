use ss_rust::define::ErrCode;
use ss_rust::define::Ip;
use ss_rust::helper::encode;
use ss_rust::server::cache::CacheMap;

#[test]
fn codec_transforms_each_byte() {
    let enc = encode(&[0x00, 0x01, 0xff, 0x7f]);
    assert_eq!(&enc[..], &[0xff, 0xfe, 0x00, 0x80]);
}

#[test]
fn codec_involution_concrete() {
    let data: Vec<u8> = (0u8..=255).collect();
    let once = encode(&data);
    let twice = encode(&once[..]);
    assert_eq!(&twice[..], &data[..]);
}

#[test]
fn codec_empty() {
    let enc = encode(&[]);
    assert_eq!(enc.len(), 0);
}

#[test]
fn err_code_from_u64_known() {
    assert_eq!(ErrCode::from_u64(0), ErrCode::Success);
    assert_eq!(ErrCode::from_u64(3), ErrCode::JsonErr);
    assert_eq!(ErrCode::from_u64(7), ErrCode::UnImplementErr);
    assert_eq!(ErrCode::from_u64(10), ErrCode::LockErr);
}

#[test]
fn err_code_from_u64_unknown() {
    assert_eq!(ErrCode::from_u64(11), ErrCode::UnDefined);
    assert_eq!(ErrCode::from_u64(10000), ErrCode::UnDefined);
}

#[test]
fn err_code_to_u64_round_trip() {
    let codes = [
        ErrCode::Success,
        ErrCode::DigestFailure,
        ErrCode::FileErr,
        ErrCode::JsonErr,
        ErrCode::ConfigErr,
        ErrCode::UrlErr,
        ErrCode::SocketErr,
        ErrCode::UnImplementErr,
        ErrCode::KeyFmtErr,
        ErrCode::NetErr,
        ErrCode::LockErr,
        ErrCode::UnDefined,
    ];
    for code in codes {
        assert_eq!(ErrCode::from_u64(code.to_u64()), code);
    }
    assert_eq!(ErrCode::UnDefined.to_u64(), 10000);
}

#[test]
fn err_code_description_distinct() {
    assert_eq!(ErrCode::Success.description(), "操作成功");
    assert_eq!(ErrCode::NetErr.description(), "网络错误");
    assert_eq!(ErrCode::LockErr.description(), "锁错误");
    assert_ne!(
        ErrCode::SocketErr.description(),
        ErrCode::UrlErr.description()
    );
}

#[test]
fn ip_new_fields() {
    let ip = Ip::new(10, 20, 30, 40);
    assert_eq!(ip.first, 10);
    assert_eq!(ip.second, 20);
    assert_eq!(ip.third, 30);
    assert_eq!(ip.forth, 40);
}

#[test]
fn cache_map_miss_then_hit() {
    let mut m = CacheMap::new();
    assert!(m.lookup(b"example.com").is_none());
    m.insert(b"example.com".to_vec(), Ip::new(93, 184, 216, 34));
    let hit = m.lookup(b"example.com").unwrap();
    assert_eq!(hit, Ip::new(93, 184, 216, 34));
    assert!(m.lookup(b"other.org").is_none());
}

#[test]
fn cache_map_last_writer_wins() {
    let mut m = CacheMap::new();
    m.insert(b"example.com".to_vec(), Ip::new(1, 1, 1, 1));
    m.insert(b"example.com".to_vec(), Ip::new(2, 2, 2, 2));
    assert_eq!(m.lookup(b"example.com").unwrap(), Ip::new(2, 2, 2, 2));
}

#[test]
fn cache_map_redundant_writes_idempotent() {
    let mut m = CacheMap::new();
    for _ in 0..5 {
        m.insert(b"same.domain".to_vec(), Ip::new(9, 9, 9, 9));
    }
    assert_eq!(m.lookup(b"same.domain").unwrap(), Ip::new(9, 9, 9, 9));
    m.insert(b"other.domain".to_vec(), Ip::new(8, 8, 8, 8));
    assert_eq!(m.lookup(b"same.domain").unwrap(), Ip::new(9, 9, 9, 9));
    assert_eq!(m.lookup(b"other.domain").unwrap(), Ip::new(8, 8, 8, 8));
}
