use torrent_peer::{Event, TrackerRequest};

#[test]
fn announce_query_string() {
    let info_hash = [
        0x06, 0x71, 0x33, 0xac, 0xe5, 0xdd, 0x0c, 0x50, 0x27, 0xb9, 0x9d, 0xe5, 0xd4, 0xba, 0x51,
        0x28, 0x28, 0x20, 0x8d, 0x5b,
    ];
    let peer_id = [
        0x2d, 0x42, 0x45, 0x30, 0x30, 0x30, 0x31, 0x2d, 0x6e, 0x9a, 0xb4, 0x40, 0x2c, 0x62, 0x2e,
        0x2e, 0x7a, 0x71, 0x5d, 0x9d,
    ];
    let request = TrackerRequest::new(info_hash, peer_id, 6882, 0, 1024, 65536, true, Some(Event::Started));
    assert_eq!(
        request.query_string(),
        "info_hash=%06q3%AC%E5%DD%0CP%27%B9%9D%E5%D4%BAQ%28%28%20%8D%5B\
         &peer_id=-BE0001-n%9A%B4%40%2Cb..zq%5D%9D\
         &port=6882&uploaded=0&downloaded=1024&left=65536&compact=1&event=started"
    );
    let quiet = TrackerRequest::new([b'a'; 20], [b'~'; 20], 1, 10, 99, 0, false, None);
    assert_eq!(
        quiet.query_string(),
        format!(
            "info_hash={}&peer_id={}&port=1&uploaded=10&downloaded=99&left=0&compact=0",
            "a".repeat(20),
            "~".repeat(20)
        )
    );
}
