//! What an RTU layer does about the bytes of a connection and about silence.
use vstd::prelude::*;

use crate::layers::application::rtu::stream::{rtu_feed, rtu_flush, Predictions, Question};
use crate::layers::application::rtu::{
    answered, late_data, Customs, DataOutcome, RtuApplicationLayer,
};
use crate::layers::application::{events_of, ApplicationRole, Event, FrameEvent};
use crate::error::ModbusError;
use crate::types::{FramedDataUnit, LengthPredictor};

verus! {

/// Only a master takes what arrives for responses. Silence counts where the layer was made
/// with a time for it.
pub proof fn law_modes<P: LengthPredictor, H>(layer: &RtuApplicationLayer<P, H>)
    ensures
        layer.mode().is_response <==> layer.bound_role() == Some(ApplicationRole::Master),
        layer.mode().strict <==> layer.interval() > 0,
        forall|fc: u8| #[trigger]
            layer.mode().codes.contains(fc) <==> layer.customs().dom().contains(fc),
{
}

/// Bytes that arrive: what came before is given up if it was too long ago; then they are
/// collected. On a serial line less than 256 bytes wait for the silence that ends a frame,
/// and the caller is asked to watch for it, and for the shorter one if that is supervised.
/// Otherwise the frames are reported at once, and there is nothing to watch for.
pub proof fn law_data_events<P: LengthPredictor, H>(
    before: &RtuApplicationLayer<P, H>,
    after: &RtuApplicationLayer<P, H>,
    data: Seq<u8>,
    id: Seq<char>,
    r: DataOutcome,
    predict: Predictions,
)
    requires
        before.data_processed(after, data, id, r, predict),
    ensures
        ({
            let mode = before.mode();
            let late = late_data(before.pending(id), before.expired(id));
            let fed = rtu_feed(late.rest, data, mode, predict);
            let now = rtu_flush(fed.rest, false, 0, mode, predict);
            let events = events_of(r.events@);
            &&& !after.expired(id)
            &&& answered(fed.asked, mode.is_response, before.customs(), predict)
            &&& if before.interval() > 0 && fed.rest.len() < 256 {
                &&& events == late.events + fed.events
                &&& after.pending(id) == fed.rest
                &&& after.known(id)
                &&& r.interval_timer == Some(before.interval())
                &&& before.inter_char() > 0 ==> r.inter_char_timer == Some(before.inter_char())
                &&& before.inter_char() == 0 ==> r.inter_char_timer is None
            } else {
                &&& events == late.events + fed.events + now.events
                &&& after.pending(id) == now.rest
                &&& after.known(id) <==> now.rest.len() > 0
                &&& r.interval_timer is None && r.inter_char_timer is None
                &&& answered(now.asked, mode.is_response, before.customs(), predict)
            }
        }),
{
}

/// The silence that ends a frame: what waits is searched for frames.
pub proof fn law_silence<P: LengthPredictor, H>(
    before: &RtuApplicationLayer<P, H>,
    after: &RtuApplicationLayer<P, H>,
    id: Seq<char>,
    events: Seq<Event>,
    predict: Predictions,
)
    requires
        before.interval_processed(after, id, events, predict),
    ensures
        ({
            let mode = before.mode();
            let run = rtu_flush(before.pending(id), before.expired(id), 0, mode, predict);
            &&& events == run.events
            &&& after.pending(id) == run.rest
            &&& after.known(id) <==> run.rest.len() > 0
            &&& !after.expired(id)
            &&& answered(run.asked, mode.is_response, before.customs(), predict)
        }),
{
}

/// What a layer goes by is what the predictors of its function codes say of the bytes: of
/// responses the one for responses, of requests the one for requests.
pub proof fn law_predictors_decide<P: LengthPredictor, H>(
    asked: Seq<Question>,
    is_response: bool,
    customs: Customs<P, H>,
    predict: Predictions,
    i: int,
)
    requires
        answered(asked, is_response, customs, predict),
        0 <= i < asked.len(),
    ensures
        ({
            let q = asked[i];
            let fc = q.buffer[1];
            let said = predict(q.ahead, q.buffer);
            &&& customs.dom().contains(fc)
            &&& is_response ==> exists|bytes: &[u8]|
                bytes@ == q.buffer && #[trigger] call_ensures(
                    P::predict,
                    (&customs[fc].predict_response_length, bytes),
                    said,
                )
            &&& !is_response ==> exists|bytes: &[u8]|
                bytes@ == q.buffer && #[trigger] call_ensures(
                    P::predict,
                    (&customs[fc].predict_request_length, bytes),
                    said,
                )
        }),
{
}

/// A connection that nothing happened to is as it was, and so are settings.
pub proof fn law_nothing_else_changes<P: LengthPredictor, H>(
    a: &RtuApplicationLayer<P, H>,
    b: &RtuApplicationLayer<P, H>,
    c: Seq<char>,
)
    ensures
        a.same_buffer(b, c) ==> a.pending(c) == b.pending(c) && a.known(c) == b.known(c)
            && a.expired(c) == b.expired(c),
        a.same_settings(b) ==> a.bound_role() == b.bound_role() && a.customs() == b.customs()
            && a.interval() == b.interval() && a.inter_char() == b.inter_char() && a.is_destroyed()
            == b.is_destroyed(),
{
}

/// What is reported is what the events hold.
pub proof fn law_event_contents(frame: FramedDataUnit, err: ModbusError, events: Seq<FrameEvent>, i: int)
    ensures
        FrameEvent::Framing(frame)@ == Event::Framing(frame@),
        FrameEvent::FramingError(err)@ == Event::FramingError(err),
        frame@.raw == frame.raw@,
        frame@.adu.transaction == frame.adu.transaction,
        frame@.adu.unit == frame.adu.unit,
        frame@.adu.fc == frame.adu.fc,
        frame@.adu.data == frame.adu.data@,
        events_of(events).len() == events.len(),
        0 <= i < events.len() ==> events_of(events)[i] == events[i]@,
{
}

} // verus!
