//! The answer to Read Device Identification.
use std::collections::HashMap;
use vstd::prelude::*;

use crate::error::ErrorCode;
use crate::utils::append_bytes;
use crate::vars::{ConformityLevel, MEI_READ_DEVICE_ID};

verus! {

/// Longest value of an object.
pub const MAX_OBJECT_LENGTH: usize = 245;

/// Longest answer, counted as the answers to this request are: ten bytes, and
/// two bytes and the value for each object.
pub const MAX_ANSWER_LENGTH: usize = 253;

/// An object with the bytes of its value.
pub struct Object {
    pub id: u8,
    pub bytes: Seq<u8>,
}

/// A device has the objects that its model names and the three basic ones.
pub open spec fn has_object(ident: Map<u8, String>, id: int) -> bool {
    id <= 0x02 || ident.dom().contains(id as u8)
}

/// The value of an object. Basic objects that the model does not name have the
/// value "null".
pub open spec fn object_bytes(ident: Map<u8, String>, id: int) -> Seq<u8> {
    if ident.dom().contains(id as u8) {
        vstd::utf8::encode_utf8(ident[id as u8]@)
    } else {
        vstd::utf8::encode_utf8("null"@)
    }
}

/// The objects of a device from the id `from` on, in the order of their ids.
pub open spec fn objects_from(ident: Map<u8, String>, from: int) -> Seq<Object>
    decreases 256 - from,
{
    if from >= 256 {
        Seq::empty()
    } else if has_object(ident, from) {
        seq![Object { id: from as u8, bytes: object_bytes(ident, from) }] + objects_from(
            ident,
            from + 1,
        )
    } else {
        objects_from(ident, from + 1)
    }
}

/// How far the objects of a device go: beyond the basic ones, or even into the
/// extended ones.
pub open spec fn conformity(ident: Map<u8, String>) -> ConformityLevel {
    if exists|id: u8| id >= 0x80 && #[trigger] ident.dom().contains(id) {
        ConformityLevel::Extended
    } else if exists|id: u8| id > 0x02 && #[trigger] ident.dom().contains(id) {
        ConformityLevel::Regular
    } else {
        ConformityLevel::Basic
    }
}

/// The objects of one answer.
pub struct Selection {
    pub chosen: Seq<Object>,
    /// The object that the next request has to ask for, or zero.
    pub next: u8,
}

/// Which of `objects` go into an answer that is `total` bytes long so far. One
/// that does not fit is left out, and the first such one is what to ask for
/// next; a single object (`specific`) is the first that fits. A value that fits
/// no answer at all spoils the whole answer.
pub open spec fn selection(objects: Seq<Object>, total: int, next: u8, specific: bool) -> Option<
    Selection,
>
    decreases objects.len(),
{
    if objects.len() == 0 {
        Some(Selection { chosen: Seq::empty(), next })
    } else {
        let o = objects[0];
        let len = o.bytes.len();
        if len > MAX_OBJECT_LENGTH {
            None
        } else if total + 2 + len > MAX_ANSWER_LENGTH {
            selection(
                objects.drop_first(),
                total,
                if next == 0 {
                    o.id
                } else {
                    next
                },
                specific,
            )
        } else if specific {
            Some(Selection { chosen: seq![o], next })
        } else {
            match selection(objects.drop_first(), total + 2 + len, next, specific) {
                Some(s) => Some(Selection { chosen: seq![o] + s.chosen, next: s.next }),
                None => None,
            }
        }
    }
}

/// Objects as bytes: the id, the length and the value of each.
pub open spec fn object_list(objects: Seq<Object>) -> Seq<u8>
    decreases objects.len(),
{
    if objects.len() == 0 {
        Seq::empty()
    } else {
        seq![objects[0].id, objects[0].bytes.len() as u8] + objects[0].bytes + object_list(
            objects.drop_first(),
        )
    }
}

/// The data of an answer that carries `s`.
pub open spec fn answer_data(code: u8, level: u8, s: Selection) -> Seq<u8> {
    seq![
        MEI_READ_DEVICE_ID,
        code,
        level,
        if s.next == 0 {
            0x00
        } else {
            0xff
        },
        s.next,
        s.chosen.len() as u8,
    ] + object_list(s.chosen)
}

/// Where the objects of an answer start: at the one asked for, or else at the
/// first one.
pub open spec fn first_object(ident: Map<u8, String>, object_id: u8) -> int {
    if has_object(ident, object_id as int) {
        object_id as int
    } else {
        0
    }
}

/// The objects of the answer to a request with the given code and object id,
/// or the exception. A single object has to exist; a stream starts at the first
/// object if the one asked for does not exist.
pub open spec fn identification_selection(
    ident: Map<u8, String>,
    code: u8,
    object_id: u8,
) -> Result<Selection, ErrorCode> {
    if code == 0x04 && !has_object(ident, object_id as int) {
        Err(ErrorCode::IllegalDataAddress)
    } else {
        match selection(
            objects_from(ident, first_object(ident, object_id)),
            10,
            0,
            code == 0x04,
        ) {
            Some(s) => Ok(s),
            None => Err(ErrorCode::ServerDeviceFailure),
        }
    }
}

/// The data of the answer to a request with the given code and object id, or
/// the exception.
pub open spec fn identification_answer(
    ident: Map<u8, String>,
    code: u8,
    object_id: u8,
) -> Result<Seq<u8>, ErrorCode> {
    match identification_selection(ident, code, object_id) {
        Ok(s) => Ok(answer_data(code, conformity(ident).value(), s)),
        Err(e) => Err(e),
    }
}

/// How far the objects of a device go.
fn conformity_level(ident: &HashMap<u8, String>) -> (r: ConformityLevel)
    ensures
        r == conformity(ident@),
{
    broadcast use vstd::std_specs::hash::group_hash_axioms;

    let mut id: u16 = 256;
    while id > 3
        invariant
            3 <= id <= 256,
            forall|k: u8| id <= k ==> !#[trigger] ident@.dom().contains(k),
        decreases id,
    {
        id = id - 1;
        let key: u8 = id as u8;
        if ident.contains_key(&key) {
            assert(ident@.dom().contains(key));
            return if key >= 0x80 {
                ConformityLevel::Extended
            } else {
                ConformityLevel::Regular
            };
        }
    }
    ConformityLevel::Basic
}

/// Append the objects from `from` on that go into one answer to `out`. Gives
/// their number and the object to ask for next, or `None` if a value fits no
/// answer.
fn append_objects(
    out: &mut Vec<u8>,
    ident: &HashMap<u8, String>,
    from: u8,
    specific: bool,
) -> (r: Option<(u8, u8)>)
    ensures
        match selection(objects_from(ident@, from as int), 10, 0, specific) {
            Some(s) => {
                &&& r == Some((s.chosen.len() as u8, s.next))
                &&& final(out)@ == old(out)@ + object_list(s.chosen)
                &&& s.chosen.len() <= 255
            },
            None => r is None,
        },
{
    broadcast use vstd::std_specs::hash::group_hash_axioms;

    let ghost whole = selection(objects_from(ident@, from as int), 10, 0, specific);
    let mut id: u16 = from as u16;
    let mut total: usize = 10;
    let mut count: u8 = 0;
    let mut next: u8 = 0;
    let ghost mut done: Seq<Object> = Seq::empty();
    let mut more: bool = true;
    proof {
        if let Some(s) = whole {
            assert(done + s.chosen =~= s.chosen);
        }
        assert(out@ + object_list(done) =~= out@);
    }
    while id < 256 && more
        invariant
            id <= 256,
            10 + 2 * count <= total <= MAX_ANSWER_LENGTH,
            done.len() == count,
            whole == selection(objects_from(ident@, from as int), 10, 0, specific),
            out@ == old(out)@ + object_list(done),
            more ==> ({
                let left = selection(objects_from(ident@, id as int), total as int, next, specific);
                match whole {
                    Some(s) => left matches Some(t) && s.chosen == done + t.chosen && s.next
                        == t.next,
                    None => left is None,
                }
            }),
            !more ==> whole == Some(Selection { chosen: done, next }),
        decreases 256 - id,
    {
        let key: u8 = id as u8;
        let ghost rest = objects_from(ident@, id + 1);
        let found: Option<&String> = ident.get(&key);
        if id <= 2 || found.is_some() {
            let value: &str = match found {
                Some(s) => s.as_str(),
                None => "null",
            };
            let bytes: &[u8] = value.as_bytes();
            let len: usize = bytes.len();
            let ghost o = Object { id: key, bytes: bytes@ };
            let ghost objects = objects_from(ident@, id as int);
            proof {
                assert(bytes@ =~= object_bytes(ident@, id as int));
                assert(objects =~= seq![o] + rest);
                assert(objects[0] == o);
                assert(objects.drop_first() =~= rest);
            }
            if len > MAX_OBJECT_LENGTH {
                return None;
            }
            if total + 2 + len > MAX_ANSWER_LENGTH {
                if next == 0 {
                    next = key;
                }
            } else {
                total = total + 2 + len;
                count = count + 1;
                let ghost before = out@;
                out.push(key);
                out.push(len as u8);
                append_bytes(out, bytes);
                proof {
                    lemma_object_list_push(done, o);
                    assert(out@ =~= old(out)@ + object_list(done.push(o)));
                    if let Some(s) = whole {
                        if specific {
                            assert(s.chosen =~= done.push(o));
                        } else {
                            let t = selection(rest, total as int, next, specific);
                            if let Some(t) = t {
                                assert(done + (seq![o] + t.chosen) =~= done.push(o) + t.chosen);
                            }
                        }
                    }
                    done = done.push(o);
                }
                if specific {
                    more = false;
                }
            }
        }
        id = id + 1;
    }
    proof {
        if more {
            assert(objects_from(ident@, 256) =~= Seq::<Object>::empty());
            if let Some(s) = whole {
                assert(s.chosen =~= done);
            }
        }
    }
    Some((count, next))
}

proof fn lemma_object_list_push(objects: Seq<Object>, o: Object)
    ensures
        object_list(objects.push(o)) == object_list(objects) + seq![o.id, o.bytes.len() as u8]
            + o.bytes,
    decreases objects.len(),
{
    let all = objects.push(o);
    if objects.len() == 0 {
        assert(all.drop_first() =~= Seq::<Object>::empty());
        assert(object_list(all.drop_first()) =~= Seq::<u8>::empty());
        assert(object_list(all) =~= object_list(objects) + seq![o.id, o.bytes.len() as u8]
            + o.bytes);
    } else {
        assert(all.drop_first() =~= objects.drop_first().push(o));
        assert(all[0] == objects[0]);
        lemma_object_list_push(objects.drop_first(), o);
        assert(object_list(all) =~= object_list(objects) + seq![o.id, o.bytes.len() as u8]
            + o.bytes);
    }
}

/// The data of the answer to a request with the given code and object id, or
/// the exception.
pub fn identification_response(
    ident: &HashMap<u8, String>,
    read_device_id_code: u8,
    object_id: u8,
) -> (r: Result<Vec<u8>, ErrorCode>)
    ensures
        match identification_answer(ident@, read_device_id_code, object_id) {
            Ok(data) => r matches Ok(d) && d@ == data,
            Err(e) => r == Err::<Vec<u8>, ErrorCode>(e),
        },
{
    broadcast use vstd::std_specs::hash::group_hash_axioms;

    let specific: bool = read_device_id_code == 0x04;
    let present: bool = object_id <= 0x02 || ident.contains_key(&object_id);
    if !present && specific {
        return Err(ErrorCode::IllegalDataAddress);
    }
    let start: u8 = if present {
        object_id
    } else {
        0
    };
    let level: u8 = conformity_level(ident).as_u8();
    let mut list: Vec<u8> = Vec::new();
    match append_objects(&mut list, ident, start, specific) {
        Some((count, next)) => {
            let mut data: Vec<u8> = Vec::new();
            data.push(MEI_READ_DEVICE_ID);
            data.push(read_device_id_code);
            data.push(level);
            data.push(
                if next == 0 {
                    0x00
                } else {
                    0xff
                },
            );
            data.push(next);
            data.push(count);
            append_bytes(&mut data, &list);
            proof {
                let s = identification_selection(ident@, read_device_id_code, object_id)->Ok_0;
                assert(list@ =~= object_list(s.chosen));
                assert(data@ =~= answer_data(read_device_id_code, level, s));
            }
            Ok(data)
        },
        None => Err(ErrorCode::ServerDeviceFailure),
    }
}

} // verus!
