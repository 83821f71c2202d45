//! Data units and the values that requests and responses carry.
use vstd::prelude::*;

use crate::utils::{copy_all, copy_values};

verus! {

/// A Modbus message without its transport framing.
#[derive(Debug)]
pub struct ApplicationDataUnit {
    /// Transaction id, on transports that have one.
    pub transaction: Option<u16>,
    pub unit: u8,
    pub fc: u8,
    pub data: Vec<u8>,
}

/// The contents of an [`ApplicationDataUnit`].
pub struct Adu {
    pub transaction: Option<u16>,
    pub unit: u8,
    pub fc: u8,
    pub data: Seq<u8>,
}

impl View for ApplicationDataUnit {
    type V = Adu;

    open spec fn view(&self) -> Adu {
        Adu { transaction: self.transaction, unit: self.unit, fc: self.fc, data: self.data@ }
    }
}

impl ApplicationDataUnit {
    pub fn new(unit: u8, fc: u8, data: Vec<u8>) -> (r: Self)
        ensures
            r@ == (Adu { transaction: None, unit, fc, data: data@ }),
    {
        ApplicationDataUnit { transaction: None, unit, fc, data }
    }

    pub fn with_transaction(self, transaction: u16) -> (r: Self)
        ensures
            r@ == (Adu { transaction: Some(transaction), ..self@ }),
    {
        ApplicationDataUnit { transaction: Some(transaction), ..self }
    }
}

impl Clone for ApplicationDataUnit {
    fn clone(&self) -> (r: Self)
        ensures
            r@ == self@,
    {
        ApplicationDataUnit {
            transaction: self.transaction,
            unit: self.unit,
            fc: self.fc,
            data: copy_all(&self.data),
        }
    }
}

/// A data unit together with the bytes it was read from.
#[derive(Debug)]
pub struct FramedDataUnit {
    pub adu: ApplicationDataUnit,
    pub raw: Vec<u8>,
}

/// The contents of a [`FramedDataUnit`].
pub struct FramedAdu {
    pub adu: Adu,
    pub raw: Seq<u8>,
}

impl View for FramedDataUnit {
    type V = FramedAdu;

    open spec fn view(&self) -> FramedAdu {
        FramedAdu { adu: self.adu@, raw: self.raw@ }
    }
}

impl Clone for FramedDataUnit {
    fn clone(&self) -> (r: Self)
        ensures
            r@ == self@,
    {
        FramedDataUnit { adu: self.adu.clone(), raw: copy_all(&self.raw) }
    }
}

/// Answer to Report Server ID. The length of the id is up to the device.
#[derive(Debug)]
pub struct ServerId {
    /// Server ID bytes, typically one.
    pub server_id: Vec<u8>,
    pub run_indicator_status: bool,
    pub additional_data: Vec<u8>,
}

/// The contents of a [`ServerId`].
pub struct ServerIdentity {
    pub server_id: Seq<u8>,
    pub run_indicator_status: bool,
    pub additional_data: Seq<u8>,
}

impl View for ServerId {
    type V = ServerIdentity;

    open spec fn view(&self) -> ServerIdentity {
        ServerIdentity {
            server_id: self.server_id@,
            run_indicator_status: self.run_indicator_status,
            additional_data: self.additional_data@,
        }
    }
}

impl ServerId {
    /// A server id of a single byte.
    pub fn single(id: u8, run_indicator: bool, additional_data: Vec<u8>) -> (r: Self)
        ensures
            r@ == (ServerIdentity {
                server_id: seq![id],
                run_indicator_status: run_indicator,
                additional_data: additional_data@,
            }),
    {
        let mut server_id: Vec<u8> = Vec::new();
        server_id.push(id);
        assert(server_id@ =~= seq![id]);
        ServerId { server_id, run_indicator_status: run_indicator, additional_data }
    }
}

impl Clone for ServerId {
    fn clone(&self) -> (r: Self)
        ensures
            r@ == self@,
    {
        ServerId {
            server_id: copy_all(&self.server_id),
            run_indicator_status: self.run_indicator_status,
            additional_data: copy_all(&self.additional_data),
        }
    }
}

/// Answer to Read Device Identification.
#[derive(Debug)]
pub struct DeviceIdentification {
    pub read_device_id_code: u8,
    pub conformity_level: u8,
    pub more_follows: bool,
    pub next_object_id: u8,
    pub objects: Vec<DeviceObject>,
}

/// One object of a device's identification.
#[derive(Debug)]
pub struct DeviceObject {
    pub id: u8,
    pub value: String,
}

/// The contents of a [`DeviceObject`].
pub struct IdentObject {
    pub id: u8,
    pub value: Seq<char>,
}

impl View for DeviceObject {
    type V = IdentObject;

    open spec fn view(&self) -> IdentObject {
        IdentObject { id: self.id, value: self.value@ }
    }
}

impl Clone for DeviceObject {
    fn clone(&self) -> (r: Self)
        ensures
            r@ == self@,
    {
        DeviceObject { id: self.id, value: self.value.clone() }
    }
}

/// The contents of a [`DeviceIdentification`].
pub struct Identity {
    pub read_device_id_code: u8,
    pub conformity_level: u8,
    pub more_follows: bool,
    pub next_object_id: u8,
    pub objects: Seq<IdentObject>,
}

impl View for DeviceIdentification {
    type V = Identity;

    open spec fn view(&self) -> Identity {
        Identity {
            read_device_id_code: self.read_device_id_code,
            conformity_level: self.conformity_level,
            more_follows: self.more_follows,
            next_object_id: self.next_object_id,
            objects: self.objects@.map_values(|o: DeviceObject| o@),
        }
    }
}

impl Clone for DeviceIdentification {
    fn clone(&self) -> (r: Self)
        ensures
            r@ == self@,
    {
        let mut objects: Vec<DeviceObject> = Vec::new();
        let mut i: usize = 0;
        while i < self.objects.len()
            invariant
                i <= self.objects@.len(),
                objects@.len() == i,
                forall|k: int| 0 <= k < i ==> (#[trigger] objects@[k])@ == self.objects@[k]@,
            decreases self.objects@.len() - i,
        {
            objects.push(self.objects[i].clone());
            i += 1;
        }
        let r = DeviceIdentification {
            read_device_id_code: self.read_device_id_code,
            conformity_level: self.conformity_level,
            more_follows: self.more_follows,
            next_object_id: self.next_object_id,
            objects,
        };
        assert(r@.objects =~= self@.objects);
        r
    }
}

/// Addresses that a model admits. A list without ranges admits every address.
#[derive(Debug)]
pub struct AddressRange {
    pub discrete_inputs: Vec<(u16, u16)>,
    pub coils: Vec<(u16, u16)>,
    pub input_registers: Vec<(u16, u16)>,
    pub holding_registers: Vec<(u16, u16)>,
}

/// The contents of an [`AddressRange`].
pub struct Ranges {
    pub discrete_inputs: Seq<(u16, u16)>,
    pub coils: Seq<(u16, u16)>,
    pub input_registers: Seq<(u16, u16)>,
    pub holding_registers: Seq<(u16, u16)>,
}

impl View for AddressRange {
    type V = Ranges;

    open spec fn view(&self) -> Ranges {
        Ranges {
            discrete_inputs: self.discrete_inputs@,
            coils: self.coils@,
            input_registers: self.input_registers@,
            holding_registers: self.holding_registers@,
        }
    }
}

/// The ranges that admit every address.
pub open spec fn unrestricted() -> Ranges {
    Ranges {
        discrete_inputs: Seq::empty(),
        coils: Seq::empty(),
        input_registers: Seq::empty(),
        holding_registers: Seq::empty(),
    }
}

impl Default for AddressRange {
    fn default() -> (r: Self)
        ensures
            r@ == unrestricted(),
    {
        AddressRange {
            discrete_inputs: Vec::new(),
            coils: Vec::new(),
            input_registers: Vec::new(),
            holding_registers: Vec::new(),
        }
    }
}

impl Clone for AddressRange {
    fn clone(&self) -> (r: Self)
        ensures
            r@ == self@,
    {
        AddressRange {
            discrete_inputs: copy_values(&self.discrete_inputs),
            coils: copy_values(&self.coils),
            input_registers: copy_values(&self.input_registers),
            holding_registers: copy_values(&self.holding_registers),
        }
    }
}

/// What a predictor tells of a frame with a custom function code.
///
/// - `Length(n)`: the whole RTU frame, checksum included, has `n` bytes.
/// - `NeedMore`: more bytes are needed to tell.
#[derive(Debug, Clone, Copy, PartialEq, Eq, Structural)]
pub enum CustomFcPredict {
    Length(usize),
    NeedMore,
}

/// Derives the total length of an RTU frame, checksum included, from the bytes
/// received so far. Users of custom function codes supply one for requests and
/// one for responses.
pub trait LengthPredictor {
    fn predict(&self, buffer: &[u8]) -> CustomFcPredict;
}

/// A prediction that does not look at the bytes: all frames of the function
/// code have one length.
impl LengthPredictor for CustomFcPredict {
    fn predict(&self, buffer: &[u8]) -> (r: CustomFcPredict)
        ensures
            r == *self,
    {
        *self
    }
}

/// A function code outside the standard ones.
///
/// The predictors let the RTU framing tell where a frame ends; `handle` answers
/// requests on the slave side. Without `handle` a slave answers such requests
/// with the exception "illegal function".
pub struct CustomFunctionCode<P, H> {
    pub fc: u8,
    /// Length of incoming requests (slave side).
    pub predict_request_length: P,
    /// Length of incoming responses (master side).
    pub predict_response_length: P,
    /// Answers requests on the slave side.
    pub handle: Option<H>,
}

impl<P: Clone, H: Clone> Clone for CustomFunctionCode<P, H> {
    fn clone(&self) -> (r: Self)
        ensures
            r.fc == self.fc,
            call_ensures(
                P::clone,
                (&self.predict_request_length,),
                r.predict_request_length,
            ),
            call_ensures(
                P::clone,
                (&self.predict_response_length,),
                r.predict_response_length,
            ),
            match self.handle {
                Some(h) => r.handle matches Some(g) && call_ensures(H::clone, (&h,), g),
                None => r.handle is None,
            },
    {
        CustomFunctionCode {
            fc: self.fc,
            predict_request_length: self.predict_request_length.clone(),
            predict_response_length: self.predict_response_length.clone(),
            handle: match &self.handle {
                Some(h) => Some(h.clone()),
                None => None,
            },
        }
    }
}

} // verus!
