use rms_client::protos::{
    BatchGetFirmwareInventoryRequest, CompareFirmwareObjectRequest, Endpoint, NetworkInterface,
    NodeInfo, NodeSet, NodeType,
};
use rms_client::wire::{decode_key, decode_varint, encode_varint, skip_field};

fn varint(v: u64) -> Vec<u8> {
    let mut out = Vec::new();
    encode_varint(v, &mut out);
    out
}

#[test]
fn varints_use_seven_bits_per_byte() {
    assert_eq!(varint(0), [0x00]);
    assert_eq!(varint(127), [0x7f]);
    assert_eq!(varint(128), [0x80, 0x01]);
    assert_eq!(varint(300), [0xac, 0x02]);
    assert_eq!(
        varint(u64::MAX),
        [0xff, 0xff, 0xff, 0xff, 0xff, 0xff, 0xff, 0xff, 0xff, 0x01]
    );
}

#[test]
fn varints_decode_back() {
    for v in [0u64, 1, 127, 128, 300, 1 << 35, u64::MAX - 1, u64::MAX] {
        let bytes = varint(v);
        assert_eq!(decode_varint(&bytes, 0, bytes.len()), Some((v, bytes.len())));
    }
    let padded = [0x80, 0x80, 0x00];
    assert_eq!(decode_varint(&padded, 0, 3), Some((0, 3)));
}

#[test]
fn varints_that_overflow_or_run_out_are_refused() {
    let too_big = [0xff, 0xff, 0xff, 0xff, 0xff, 0xff, 0xff, 0xff, 0xff, 0x02];
    assert_eq!(decode_varint(&too_big, 0, 10), None);
    let too_long = [0x80, 0x80, 0x80, 0x80, 0x80, 0x80, 0x80, 0x80, 0x80, 0x80, 0x00];
    assert_eq!(decode_varint(&too_long, 0, 11), None);
    let truncated = [0x80, 0x80];
    assert_eq!(decode_varint(&truncated, 0, 2), None);
    assert_eq!(decode_varint(&truncated, 0, 0), None);
}

#[test]
fn keys_split_into_field_number_and_wire_type() {
    assert_eq!(decode_key(&[0x3a], 0, 1), Some((7, 2, 1)));
    assert_eq!(decode_key(&[0x12], 0, 1), Some((2, 2, 1)));
    assert_eq!(decode_key(&[0x02], 0, 1), None);
    assert_eq!(decode_key(&[0x0e], 0, 1), None);
    assert_eq!(decode_key(&[0x0f], 0, 1), None);
}

#[test]
fn unknown_fields_are_skipped_by_wire_type() {
    assert_eq!(skip_field(0, 3, &[0x96, 0x01, 0x00], 0, 3, 100), Some(2));
    assert_eq!(skip_field(1, 3, &[0; 8], 0, 8, 100), Some(8));
    assert_eq!(skip_field(1, 3, &[0; 7], 0, 7, 100), None);
    assert_eq!(skip_field(5, 3, &[0; 4], 0, 4, 100), Some(4));
    assert_eq!(skip_field(2, 3, &[0x02, 0xaa, 0xbb, 0xcc], 0, 4, 100), Some(3));
    assert_eq!(skip_field(2, 3, &[0x05, 0xaa], 0, 2, 100), None);
    assert_eq!(skip_field(4, 3, &[], 0, 0, 100), None);
    assert_eq!(skip_field(0, 3, &[0x01], 0, 1, 0), None);
}

#[test]
fn groups_are_skipped_up_to_their_matching_end() {
    // group 3: a varint field 1, then the end key of group 3 (3 << 3 | 4 = 0x1c).
    assert_eq!(skip_field(3, 3, &[0x08, 0x01, 0x1c], 0, 3, 100), Some(3));
    // an end key for another group number is refused.
    assert_eq!(skip_field(3, 3, &[0x08, 0x01, 0x24], 0, 3, 100), None);
    // a group that never ends is refused.
    assert_eq!(skip_field(3, 3, &[0x08, 0x01], 0, 2, 100), None);
}

#[test]
fn deeply_nested_groups_hit_the_recursion_limit() {
    fn nested(levels: usize) -> Vec<u8> {
        let mut bytes = vec![0x0b; levels];
        bytes.extend(std::iter::repeat(0x0c).take(levels));
        bytes
    }
    // group 1 opened `levels` times inside the group being skipped.
    let shallow = nested(10);
    assert_eq!(
        skip_field(3, 1, &[shallow.as_slice(), &[0x0c]].concat(), 0, shallow.len() + 1, 100),
        Some(shallow.len() + 1)
    );
    let deep = nested(120);
    let input = [deep.as_slice(), &[0x0c]].concat();
    assert_eq!(skip_field(3, 1, &input, 0, input.len(), 100), None);
}

#[test]
fn decoding_skips_fields_it_does_not_know() {
    // field 2 varint, field 3 fixed32, field 1 "ab", field 9 bytes.
    let bytes = [
        0x10, 0x05, 0x1d, 1, 2, 3, 4, 0x0a, 0x02, b'a', b'b', 0x4a, 0x01, 0xff,
    ];
    let node = NodeInfo::decode(&bytes).unwrap();
    assert_eq!(node.node_id, "ab");
    assert!(node.additional_host_endpoints.is_empty());
}

#[test]
fn later_string_fields_replace_earlier_ones() {
    let bytes = [0x0a, 0x01, b'a', 0x0a, 0x02, b'b', b'c'];
    assert_eq!(NodeInfo::decode(&bytes).unwrap().node_id, "bc");
}

#[test]
fn repeated_nested_messages_merge_into_one() {
    // Endpoint with its interface given twice: the second merges into the first.
    let bytes = [0x0a, 0x03, 0x0a, 0x01, b'x', 0x0a, 0x00];
    let endpoint = Endpoint::decode(&bytes).unwrap();
    assert_eq!(
        endpoint.interface,
        Some(NetworkInterface {
            ip_address: "x".to_owned()
        })
    );
}

#[test]
fn malformed_messages_are_refused() {
    // not UTF-8
    assert!(NodeInfo::decode(&[0x0a, 0x01, 0xff]).is_err());
    // string field with the varint wire type
    assert!(NodeInfo::decode(&[0x08, 0x01]).is_err());
    // length beyond the input
    assert!(NodeInfo::decode(&[0x0a, 0x05, b'a']).is_err());
    // nested length beyond its parent
    assert!(NodeInfo::decode(&[0x3a, 0x02, 0x0a, 0x05, 0x00]).is_err());
    // field number zero
    assert!(NodeInfo::decode(&[0x02, 0x00]).is_err());
    // a stray end-group key
    assert!(NodeSet::decode(&[0x0c]).is_err());
}

#[test]
fn empty_input_decodes_to_the_default_message() {
    assert_eq!(NodeInfo::decode(&[]).unwrap(), NodeInfo::default());
    assert_eq!(
        BatchGetFirmwareInventoryRequest::decode(&[]).unwrap(),
        BatchGetFirmwareInventoryRequest::default()
    );
}

#[test]
fn messages_round_trip() {
    let node = NodeInfo {
        node_id: "compute-07".to_owned(),
        additional_host_endpoints: vec![
            Endpoint {
                interface: Some(NetworkInterface {
                    ip_address: "10.0.0.7".to_owned(),
                }),
            },
            Endpoint { interface: None },
            Endpoint {
                interface: Some(NetworkInterface {
                    ip_address: String::new(),
                }),
            },
        ],
    };
    assert_eq!(NodeInfo::decode(&node.encode_to_vec()).unwrap(), node);

    let request = CompareFirmwareObjectRequest {
        config_json: "{\"bmc\": \"1.2\"}".to_owned(),
        firmware_type: "prod ✓".to_owned(),
        nodes: Some(NodeSet {
            nodes: vec![node.clone(), NodeInfo::default()],
        }),
    };
    let encoded = request.encode_to_vec();
    assert_eq!(CompareFirmwareObjectRequest::decode(&encoded).unwrap(), request);

    let set = NodeSet { nodes: vec![node] };
    assert_eq!(NodeSet::decode(&set.encode_to_vec()).unwrap(), set);
}

#[test]
fn compare_request_fields_are_written_in_order() {
    let request = CompareFirmwareObjectRequest {
        config_json: "{}".to_owned(),
        firmware_type: "prod".to_owned(),
        nodes: Some(NodeSet::default()),
    };
    assert_eq!(
        request.encode_to_vec(),
        [0x0a, 0x02, b'{', b'}', 0x12, 0x04, b'p', b'r', b'o', b'd', 0x1a, 0x00]
    );
}

#[test]
fn node_type_names_and_values_map_both_ways() {
    assert_eq!(NodeType::from_str_name("compute_vrnvl72_nvidia"), None);
    assert_eq!(NodeType::from_str_name(""), None);
    assert_eq!(NodeType::from_wire_value(10), Some(NodeType::ComputeVrnvl72Nvidia));
    assert_eq!(NodeType::from_wire_value(11), Some(NodeType::SwitchVrnvl72Nvidia));
    assert_eq!(NodeType::from_wire_value(12), None);
    for t in [NodeType::ComputeVrnvl72Nvidia, NodeType::SwitchVrnvl72Nvidia] {
        assert_eq!(NodeType::from_str_name(t.as_str_name()), Some(t));
        assert_eq!(NodeType::from_wire_value(i32::from(t)), Some(t));
    }
}
