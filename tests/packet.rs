use chat_bubbles::codec::EncodeError;
use chat_bubbles::packet::{
    decode_packet, encode_packet, split, Packet, Scope, MAX_CHUNKS, MAX_PAYLOAD, PACKET_SIZE,
};
use chat_bubbles::reassembly::{ProtocolError, Reassembler};

fn blob(len: usize) -> Vec<u8> {
    (0..len).map(|i| (i * 7 + 3) as u8).collect()
}

#[test]
fn packet_layout() {
    let p = Packet {
        stream_id: 0x0403_0201,
        chunk_index: 1,
        chunk_count: 2,
        scope: Scope::World { have_plugin: true },
        payload: vec![0xaa, 0xbb],
    };
    let bytes = encode_packet(&p);
    assert_eq!(bytes.len(), PACKET_SIZE);
    assert_eq!(&bytes[..13], &[1, 2, 3, 4, 1, 0, 2, 0, 1, 1, 2, 0xaa, 0xbb]);
    assert!(bytes[13..].iter().all(|&b| b == 0));
    assert_eq!(decode_packet(&bytes).unwrap(), p);
}

#[test]
fn scopes_round_trip() {
    for scope in [
        Scope::Player(17),
        Scope::World { have_plugin: false },
        Scope::Server { have_plugin: true },
    ] {
        let p = Packet { stream_id: 9, chunk_index: 0, chunk_count: 1, scope, payload: vec![5] };
        assert_eq!(decode_packet(&encode_packet(&p)).unwrap(), p);
    }
}

#[test]
fn decode_packet_rejects_bad_bytes() {
    assert!(decode_packet(&[0u8; 10]).is_none());
    let good = encode_packet(&Packet {
        stream_id: 1,
        chunk_index: 0,
        chunk_count: 1,
        scope: Scope::Player(1),
        payload: vec![1, 2, 3],
    });
    let mut bad_len = good.clone();
    bad_len[10] = 54;
    assert!(decode_packet(&bad_len).is_none());
    let mut bad_index = good.clone();
    bad_index[4] = 1;
    assert!(decode_packet(&bad_index).is_none());
    let mut bad_scope = good.clone();
    bad_scope[8] = 3;
    assert!(decode_packet(&bad_scope).is_none());
    let mut too_many = good.clone();
    too_many[6] = 65;
    assert!(decode_packet(&too_many).is_none());
}

#[test]
fn split_counts_and_cuts_chunks() {
    let data = blob(MAX_PAYLOAD * 2 + 1);
    let packets = split(&data, 5, Scope::Player(2)).unwrap();
    assert_eq!(packets.len(), 3);
    for (i, p) in packets.iter().enumerate() {
        assert_eq!(p.stream_id, 5);
        assert_eq!(p.chunk_index as usize, i);
        assert_eq!(p.chunk_count, 3);
    }
    assert_eq!(packets[0].payload, data[..53].to_vec());
    assert_eq!(packets[1].payload, data[53..106].to_vec());
    assert_eq!(packets[2].payload, data[106..].to_vec());
}

#[test]
fn split_of_nothing_is_one_empty_chunk() {
    let packets = split(&[], 1, Scope::Player(2)).unwrap();
    assert_eq!(packets.len(), 1);
    assert!(packets[0].payload.is_empty());
}

#[test]
fn split_of_largest_blob_and_one_more_byte() {
    let data = blob(MAX_PAYLOAD * MAX_CHUNKS);
    assert_eq!(split(&data, 1, Scope::Player(2)).unwrap().len(), MAX_CHUNKS);
    let data = blob(MAX_PAYLOAD * MAX_CHUNKS + 1);
    assert_eq!(split(&data, 1, Scope::Player(2)), Err(EncodeError::TooLarge));
}

#[test]
fn reassembly_in_order() {
    let data = blob(150);
    let mut r = Reassembler::new();
    let packets = split(&data, 3, Scope::World { have_plugin: true }).unwrap();
    let n = packets.len();
    let mut out = None;
    for (i, p) in packets.into_iter().enumerate() {
        let got = r.receive(6, p, 1000).unwrap();
        if i + 1 < n {
            assert!(got.is_none());
        } else {
            out = got;
        }
    }
    assert_eq!(out.unwrap(), data);
    assert_eq!(r.len(), 0);
}

#[test]
fn reassembly_in_any_order() {
    let data = blob(200);
    let orders: Vec<Vec<usize>> = vec![vec![3, 2, 1, 0], vec![1, 3, 0, 2], vec![0, 2, 3, 1]];
    for order in orders {
        let packets = split(&data, 11, Scope::World { have_plugin: true }).unwrap();
        assert_eq!(packets.len(), 4);
        let mut slots: Vec<Option<Packet>> = packets.into_iter().map(Some).collect();
        let mut r = Reassembler::new();
        for (k, &i) in order.iter().enumerate() {
            let got = r.receive(6, slots[i].take().unwrap(), 0).unwrap();
            if k < 3 {
                assert!(got.is_none());
                assert_eq!(r.len(), 1);
            } else {
                assert_eq!(got.unwrap(), data);
            }
        }
        assert_eq!(r.len(), 0);
    }
}

#[test]
fn streams_of_different_senders_stay_apart() {
    let a = blob(60);
    let b: Vec<u8> = blob(60).iter().map(|x| x ^ 0xff).collect();
    let pa = split(&a, 1, Scope::Player(0)).unwrap();
    let pb = split(&b, 1, Scope::Player(0)).unwrap();
    let mut r = Reassembler::new();
    let mut pa = pa.into_iter();
    let mut pb = pb.into_iter();
    assert!(r.receive(1, pa.next().unwrap(), 0).unwrap().is_none());
    assert!(r.receive(2, pb.next().unwrap(), 0).unwrap().is_none());
    assert_eq!(r.len(), 2);
    assert_eq!(r.receive(2, pb.next().unwrap(), 0).unwrap().unwrap(), b);
    assert_eq!(r.receive(1, pa.next().unwrap(), 0).unwrap().unwrap(), a);
}

#[test]
fn mismatched_chunk_count_drops_the_stream() {
    let mut r = Reassembler::new();
    let p = |index: u16, count: u16| Packet {
        stream_id: 4,
        chunk_index: index,
        chunk_count: count,
        scope: Scope::Player(0),
        payload: vec![1],
    };
    assert!(r.receive(1, p(0, 3), 0).unwrap().is_none());
    assert_eq!(r.receive(1, p(1, 2), 0), Err(ProtocolError::CountMismatch));
    assert_eq!(r.len(), 0);
}

#[test]
fn idle_streams_are_dropped() {
    let mut r = Reassembler::new();
    let p = |index: u16| Packet {
        stream_id: 4,
        chunk_index: index,
        chunk_count: 2,
        scope: Scope::Player(0),
        payload: vec![1],
    };
    assert!(r.receive(1, p(0), 1_000).unwrap().is_none());
    r.drop_idle(11_000);
    assert_eq!(r.len(), 1);
    r.drop_idle(11_001);
    assert_eq!(r.len(), 0);
}
