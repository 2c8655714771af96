use rms_client::protos::{
    BatchGetFirmwareInventoryRequest, CompareFirmwareObjectRequest, DecodeError, Endpoint,
    FirmwareComparisonStatus, NetworkInterface, NodeInfo, NodeSet, NodeType,
};

#[test]
fn vrnvl72_node_types_have_stable_wire_values_and_names() {
    assert_eq!(i32::from(NodeType::ComputeVrnvl72Nvidia), 10);
    assert_eq!(i32::from(NodeType::SwitchVrnvl72Nvidia), 11);

    assert_eq!(
        NodeType::ComputeVrnvl72Nvidia.as_str_name(),
        "COMPUTE_VRNVL72_NVIDIA"
    );
    assert_eq!(
        NodeType::SwitchVrnvl72Nvidia.as_str_name(),
        "SWITCH_VRNVL72_NVIDIA"
    );

    assert_eq!(
        NodeType::from_str_name("COMPUTE_VRNVL72_NVIDIA"),
        Some(NodeType::ComputeVrnvl72Nvidia)
    );
    assert_eq!(
        NodeType::from_str_name("SWITCH_VRNVL72_NVIDIA"),
        Some(NodeType::SwitchVrnvl72Nvidia)
    );
}

#[test]
#[allow(clippy::needless_update)]
fn additional_host_endpoints_use_protobuf_field_seven() {
    let node = NodeInfo {
        additional_host_endpoints: vec![Endpoint {
            interface: Some(NetworkInterface {
                ip_address: "192.0.2.11".to_owned(),
                ..Default::default()
            }),
            ..Default::default()
        }],
        ..Default::default()
    };

    assert_eq!(
        node.encode_to_vec(),
        [
            0x3a, 0x0e, 0x0a, 0x0c, 0x0a, 0x0a, b'1', b'9', b'2', b'.', b'0', b'.', b'2', b'.',
            b'1', b'1',
        ]
    );
}

#[test]
fn node_info_without_additional_host_endpoints_decodes_with_an_empty_list(
) -> Result<(), DecodeError> {
    let node = NodeInfo::decode([0x0a, 0x05, b's', b'w', b'-', b'0', b'1'].as_slice())?;

    assert_eq!(node.node_id, "sw-01");
    assert!(node.additional_host_endpoints.is_empty());

    Ok(())
}

#[test]
#[allow(clippy::needless_update)]
fn batch_firmware_inventory_request_uses_node_set_field_two() -> Result<(), DecodeError> {
    let request = BatchGetFirmwareInventoryRequest {
        nodes: Some(NodeSet {
            nodes: vec![NodeInfo {
                node_id: "compute-01".to_owned(),
                ..Default::default()
            }],
        }),
    };

    let encoded = request.encode_to_vec();
    assert_eq!(encoded.first(), Some(&0x12));
    assert_eq!(
        BatchGetFirmwareInventoryRequest::decode(encoded.as_slice())?,
        request
    );

    Ok(())
}

#[test]
#[allow(clippy::needless_update)]
fn firmware_manifest_comparison_api_has_stable_wire_values() {
    assert_eq!(i32::from(FirmwareComparisonStatus::Matched), 1);
    assert_eq!(i32::from(FirmwareComparisonStatus::Mismatched), 2);
    assert_eq!(i32::from(FirmwareComparisonStatus::Missing), 3);
    assert_eq!(i32::from(FirmwareComparisonStatus::Unverified), 4);

    let request = CompareFirmwareObjectRequest {
        config_json: "{}".to_owned(),
        firmware_type: "prod".to_owned(),
        nodes: Some(NodeSet::default()),
        ..Default::default()
    };

    assert_eq!(request.config_json, "{}");
    assert_eq!(request.firmware_type, "prod");
    assert!(request.nodes.is_some());
    assert_eq!(request.encode_to_vec().first(), Some(&0x0a));
}
