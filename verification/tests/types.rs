use rs_modbus::types::{
    AddressRange, ApplicationDataUnit, CustomFcPredict, CustomFunctionCode, DeviceIdentification,
    DeviceObject, FramedDataUnit, LengthPredictor, ServerId,
};
use std::sync::Arc;

#[test]
fn test_adu_new() {
    let adu = ApplicationDataUnit::new(1, 0x03, vec![0x00, 0x00, 0x00, 0x0a]);
    assert_eq!(adu.unit, 1);
    assert_eq!(adu.fc, 0x03);
    assert_eq!(adu.data, vec![0x00, 0x00, 0x00, 0x0a]);
    assert_eq!(adu.transaction, None);
}

#[test]
fn test_adu_with_transaction() {
    let adu = ApplicationDataUnit::new(1, 0x03, vec![]).with_transaction(42);
    assert_eq!(adu.transaction, Some(42));
}

#[test]
fn test_framed_data_unit() {
    let adu = ApplicationDataUnit::new(1, 0x03, vec![0x00, 0x01]);
    let raw = vec![0x00, 0x01, 0x00, 0x00, 0x00, 0x04, 0x01, 0x03, 0x00, 0x01];
    let frame = FramedDataUnit {
        adu,
        raw: raw.clone(),
    };
    assert_eq!(frame.raw, raw);
}

#[test]
fn test_server_id_single() {
    let sid = ServerId::single(1, true, vec![1, 2, 3]);
    assert_eq!(sid.server_id, vec![1]);
    assert!(sid.run_indicator_status);
    assert_eq!(sid.additional_data, vec![1, 2, 3]);
}

#[test]
fn test_server_id_multi() {
    let sid = ServerId {
        server_id: vec![0x01, 0x02, 0x03],
        run_indicator_status: false,
        additional_data: vec![0xab, 0xcd],
    };
    assert_eq!(sid.server_id.len(), 3);
    assert!(!sid.run_indicator_status);
}

#[test]
fn test_device_object() {
    let obj = DeviceObject {
        id: 0x01,
        value: "ProductCode".to_string(),
    };
    assert_eq!(obj.id, 0x01);
    assert_eq!(obj.value, "ProductCode");
}

#[test]
fn test_device_identification() {
    let di = DeviceIdentification {
        read_device_id_code: 0x01,
        conformity_level: 0x81,
        more_follows: false,
        next_object_id: 0x00,
        objects: vec![
            DeviceObject {
                id: 0x00,
                value: "VendorName".to_string(),
            },
            DeviceObject {
                id: 0x01,
                value: "ProductCode".to_string(),
            },
        ],
    };
    assert_eq!(di.read_device_id_code, 0x01);
    assert_eq!(di.conformity_level, 0x81);
    assert!(!di.more_follows);
    assert_eq!(di.objects.len(), 2);
}

#[test]
fn test_address_range_default() {
    let range = AddressRange::default();
    assert!(range.coils.is_empty());
    assert!(range.discrete_inputs.is_empty());
    assert!(range.input_registers.is_empty());
    assert!(range.holding_registers.is_empty());
}

type Predictor = Arc<dyn Fn(&[u8]) -> CustomFcPredict + Send + Sync + 'static>;
type Handler = Arc<dyn Fn(Vec<u8>, u8) -> Vec<u8> + Send + Sync + 'static>;

#[test]
fn test_custom_function_code_construction() {
    let request: Predictor = Arc::new(|_| CustomFcPredict::Length(8));
    let response: Predictor = Arc::new(|_| CustomFcPredict::Length(8));
    let cfc: CustomFunctionCode<Predictor, Handler> = CustomFunctionCode {
        fc: 0x65,
        predict_request_length: request,
        predict_response_length: response,
        handle: None,
    };
    assert_eq!(cfc.fc, 0x65);
    assert!(cfc.handle.is_none());
}

#[test]
fn a_constant_prediction_ignores_the_bytes() {
    assert_eq!(CustomFcPredict::Length(8).predict(&[]), CustomFcPredict::Length(8));
    assert_eq!(CustomFcPredict::Length(8).predict(&[1, 2, 3]), CustomFcPredict::Length(8));
    assert_eq!(CustomFcPredict::NeedMore.predict(&[1, 2, 3]), CustomFcPredict::NeedMore);
}

#[test]
fn clones_hold_the_same_values() {
    let adu = ApplicationDataUnit::new(7, 0x10, vec![1, 2, 3]).with_transaction(9);
    let copy = adu.clone();
    assert_eq!((copy.transaction, copy.unit, copy.fc), (Some(9), 7, 0x10));
    assert_eq!(copy.data, vec![1, 2, 3]);

    let frame = FramedDataUnit { adu, raw: vec![4, 5] }.clone();
    assert_eq!(frame.adu.data, vec![1, 2, 3]);
    assert_eq!(frame.raw, vec![4, 5]);

    let code = CustomFunctionCode {
        fc: 0x65,
        predict_request_length: CustomFcPredict::Length(8),
        predict_response_length: CustomFcPredict::NeedMore,
        handle: Some(7u8),
    }
    .clone();
    assert_eq!((code.fc, code.handle), (0x65, Some(7)));
    assert_eq!(code.predict_request_length, CustomFcPredict::Length(8));
    assert_eq!(code.predict_response_length, CustomFcPredict::NeedMore);

    let sid = ServerId::single(3, true, vec![8]).clone();
    assert_eq!(sid.server_id, vec![3]);
    assert!(sid.run_indicator_status);
    assert_eq!(sid.additional_data, vec![8]);

    let range = AddressRange {
        coils: vec![(1, 2)],
        discrete_inputs: vec![(3, 4)],
        input_registers: vec![(5, 6)],
        holding_registers: vec![(7, 8), (9, 10)],
    }
    .clone();
    assert_eq!(range.coils, vec![(1, 2)]);
    assert_eq!(range.discrete_inputs, vec![(3, 4)]);
    assert_eq!(range.input_registers, vec![(5, 6)]);
    assert_eq!(range.holding_registers, vec![(7, 8), (9, 10)]);

    let di = DeviceIdentification {
        read_device_id_code: 4,
        conformity_level: 0x83,
        more_follows: true,
        next_object_id: 5,
        objects: vec![DeviceObject {
            id: 0x80,
            value: "x".to_string(),
        }],
    }
    .clone();
    assert_eq!(di.objects[0].id, 0x80);
    assert_eq!(di.objects[0].value, "x");
    assert!(di.more_follows);
    assert_eq!((di.read_device_id_code, di.conformity_level, di.next_object_id), (4, 0x83, 5));
}
