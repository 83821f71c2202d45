//! What a device tells of itself.
use vstd::prelude::*;

use crate::error::ErrorCode;
use crate::slave::identification::{
    answer_data, conformity, first_object, identification_answer, identification_selection,
    object_bytes, object_list, objects_from, selection, Object, Selection,
};
use crate::types::{DeviceIdentification, DeviceObject};

verus! {

/// A device has the three basic objects and those that its model names.
pub open spec fn exists_on(ident: Map<u8, String>, id: int) -> bool {
    0 <= id <= 2 || (0 <= id < 256 && ident.dom().contains(id as u8))
}

/// The bytes of the text that the model gives to an object, or "null" for a basic object
/// that it does not name.
pub open spec fn told_of(ident: Map<u8, String>, id: int) -> Seq<u8> {
    if ident.dom().contains(id as u8) {
        vstd::utf8::encode_utf8(ident[id as u8]@)
    } else {
        vstd::utf8::encode_utf8("null"@)
    }
}

/// The objects of a device from an id on are all that it has, by ascending ids, each with
/// its text.
pub proof fn law_objects_of_a_device(ident: Map<u8, String>, from: int)
    requires
        0 <= from,
    ensures
        ({
            let all = objects_from(ident, from);
            &&& forall|i: int, j: int|
                0 <= i < j < all.len() ==> (#[trigger] all[i]).id < (#[trigger] all[j]).id
            &&& forall|i: int|
                0 <= i < all.len() ==> from <= (#[trigger] all[i]).id && exists_on(
                    ident,
                    all[i].id as int,
                ) && all[i].bytes == told_of(ident, all[i].id as int)
            &&& forall|id: int|
                from <= id < 256 && #[trigger] exists_on(ident, id) ==> exists|i: int|
                    0 <= i < all.len() && (#[trigger] all[i]).id == id
        }),
    decreases 256 - from,
{
    let all = objects_from(ident, from);
    if from < 256 {
        law_objects_of_a_device(ident, from + 1);
        let rest = objects_from(ident, from + 1);
        if exists_on(ident, from) {
            let first = Object { id: from as u8, bytes: object_bytes(ident, from) };
            assert(all =~= seq![first] + rest);
            assert(all[0].id == from);
            assert forall|i: int| 0 < i < all.len() implies #[trigger] all[i] == rest[i - 1] by {}
            assert forall|id: int| from <= id < 256 && #[trigger] exists_on(ident, id) implies exists|
                i: int,
            | 0 <= i < all.len() && (#[trigger] all[i]).id == id by {
                if id > from {
                    let k = choose|k: int| 0 <= k < rest.len() && (#[trigger] rest[k]).id == id;
                    assert(all[k + 1].id == id);
                }
            }
        } else {
            assert(all == rest);
        }
    }
}

// ----- which objects go into an answer -----
/// The room that the objects of `chosen` with ids under `id` take in an answer: two bytes
/// and the text of each.
pub open spec fn room_before(chosen: Seq<Object>, id: int) -> int
    decreases chosen.len(),
{
    if chosen.len() == 0 {
        0
    } else {
        room_before(chosen.drop_first(), id) + if chosen[0].id < id {
            2 + chosen[0].bytes.len()
        } else {
            0
        }
    }
}

/// Object `o` fits an answer behind those of `chosen` that come before it, where `total`
/// bytes of at most 253 are taken already.
pub open spec fn fits(chosen: Seq<Object>, o: Object, total: int) -> bool {
    total + room_before(chosen, o.id as int) + 2 + o.bytes.len() <= 253
}

spec fn by_ascending_ids(objects: Seq<Object>) -> bool {
    forall|i: int, j: int|
        0 <= i < j < objects.len() ==> (#[trigger] objects[i]).id < (#[trigger] objects[j]).id
}

/// What holds of the objects that are chosen for an answer: they are some of the device's,
/// in their order; one is left out exactly if it does not fit; the one to ask for next is
/// the first one left out, but for object 0.
spec fn chosen_rightly(objects: Seq<Object>, total: int, next: u8, s: Selection) -> bool {
    &&& by_ascending_ids(s.chosen)
    &&& forall|i: int| 0 <= i < s.chosen.len() ==> objects.contains(#[trigger] s.chosen[i])
    &&& forall|i: int|
        0 <= i < objects.len() ==> (s.chosen.contains(#[trigger] objects[i]) <==> fits(
            s.chosen,
            objects[i],
            total,
        ))
    &&& next != 0 ==> s.next == next
    &&& next == 0 && s.next != 0 ==> exists|i: int|
        0 <= i < objects.len() && (#[trigger] objects[i]).id == s.next && !s.chosen.contains(
            objects[i],
        )
    &&& next == 0 ==> forall|i: int|
        0 <= i < objects.len() && (#[trigger] objects[i]).id > 0 && !s.chosen.contains(objects[i])
            ==> s.next != 0 && s.next <= objects[i].id
}

proof fn lemma_no_room_before(chosen: Seq<Object>, id: int)
    requires
        forall|i: int| 0 <= i < chosen.len() ==> id <= (#[trigger] chosen[i]).id,
    ensures
        room_before(chosen, id) == 0,
    decreases chosen.len(),
{
    if chosen.len() > 0 {
        let rest = chosen.drop_first();
        assert forall|i: int| 0 <= i < rest.len() implies id <= (#[trigger] rest[i]).id by {
            assert(rest[i] == chosen[i + 1]);
        }
        lemma_no_room_before(rest, id);
    }
}

#[verifier::rlimit(40)]
proof fn lemma_selection(objects: Seq<Object>, total: int, next: u8)
    requires
        by_ascending_ids(objects),
    ensures
        selection(objects, total, next, false) is None <==> exists|i: int|
            0 <= i < objects.len() && (#[trigger] objects[i]).bytes.len() > 245,
        selection(objects, total, next, false) matches Some(s) ==> chosen_rightly(
            objects,
            total,
            next,
            s,
        ),
    decreases objects.len(),
{
    if objects.len() > 0 {
        let o = objects[0];
        let rest = objects.drop_first();
        let len = o.bytes.len() as int;
        assert forall|i: int| 0 <= i < rest.len() implies #[trigger] rest[i] == objects[i + 1] by {}
        assert forall|i: int| 0 < i < objects.len() implies #[trigger] objects[i] == rest[i - 1] by {}
        if len <= 245 {
            if total + 2 + len > 253 {
                let later = if next == 0 {
                    o.id
                } else {
                    next
                };
                lemma_selection(rest, total, later);
                lemma_none_too_long(objects, rest);
                if let Some(s) = selection(objects, total, next, false) {
                    lemma_left_out(objects, rest, total, next, s);
                }
            } else {
                lemma_selection(rest, total + 2 + len, next);
                lemma_none_too_long(objects, rest);
                if let Some(t) = selection(rest, total + 2 + len, next, false) {
                    lemma_taken_in(objects, rest, total, next, t);
                }
            }
        }
    }
}

proof fn lemma_none_too_long(objects: Seq<Object>, rest: Seq<Object>)
    requires
        objects.len() > 0,
        rest == objects.drop_first(),
        objects[0].bytes.len() <= 245,
    ensures
        (exists|i: int| 0 <= i < objects.len() && (#[trigger] objects[i]).bytes.len() > 245)
            <==> exists|i: int| 0 <= i < rest.len() && (#[trigger] rest[i]).bytes.len() > 245,
{
    if exists|i: int| 0 <= i < objects.len() && (#[trigger] objects[i]).bytes.len() > 245 {
        let i = choose|i: int| 0 <= i < objects.len() && (#[trigger] objects[i]).bytes.len() > 245;
        assert(rest[i - 1] == objects[i]);
    }
    if exists|i: int| 0 <= i < rest.len() && (#[trigger] rest[i]).bytes.len() > 245 {
        let i = choose|i: int| 0 <= i < rest.len() && (#[trigger] rest[i]).bytes.len() > 245;
        assert(objects[i + 1] == rest[i]);
    }
}

#[verifier::rlimit(40)]
proof fn lemma_left_out(
    objects: Seq<Object>,
    rest: Seq<Object>,
    total: int,
    next: u8,
    s: Selection,
)
    requires
        by_ascending_ids(objects),
        objects.len() > 0,
        rest == objects.drop_first(),
        total + 2 + objects[0].bytes.len() > 253,
        chosen_rightly(
            rest,
            total,
            if next == 0 {
                objects[0].id
            } else {
                next
            },
            s,
        ),
    ensures
        chosen_rightly(objects, total, next, s),
{
    let o = objects[0];
    let later = if next == 0 {
        o.id
    } else {
        next
    };
    assert forall|i: int| 0 < i < objects.len() implies #[trigger] objects[i] == rest[i - 1] by {}
    assert forall|i: int| 0 <= i < s.chosen.len() implies objects.contains(
        #[trigger] s.chosen[i],
    ) && o.id < s.chosen[i].id by {
        assert(rest.contains(s.chosen[i]));
        let k = choose|k: int| 0 <= k < rest.len() && rest[k] == s.chosen[i];
        assert(objects[k + 1] == s.chosen[i]);
    }
    lemma_no_room_before(s.chosen, o.id as int);
    assert(!s.chosen.contains(o)) by {
        if s.chosen.contains(o) {
            let k = choose|k: int| 0 <= k < s.chosen.len() && s.chosen[k] == o;
            assert(o.id < s.chosen[k].id);
        }
    }
    assert forall|i: int| 0 <= i < objects.len() implies (s.chosen.contains(#[trigger] objects[i])
        <==> fits(s.chosen, objects[i], total)) by {
        if i > 0 {
            assert(rest[i - 1] == objects[i]);
        }
    }
    if next == 0 {
        if o.id != 0 {
            assert(s.next == o.id);
            assert(objects[0].id == s.next && !s.chosen.contains(objects[0]));
        } else if s.next != 0 {
            let k = choose|k: int|
                0 <= k < rest.len() && (#[trigger] rest[k]).id == s.next && !s.chosen.contains(
                    rest[k],
                );
            assert(objects[k + 1] == rest[k]);
        }
        assert forall|i: int|
            0 <= i < objects.len() && (#[trigger] objects[i]).id > 0 && !s.chosen.contains(
                objects[i],
            ) implies s.next != 0 && s.next <= objects[i].id by {
            if i > 0 {
                assert(objects[0].id < objects[i].id);
                assert(rest[i - 1] == objects[i]);
            }
        }
    }
}

#[verifier::rlimit(40)]
proof fn lemma_taken_in(
    objects: Seq<Object>,
    rest: Seq<Object>,
    total: int,
    next: u8,
    t: Selection,
)
    requires
        by_ascending_ids(objects),
        objects.len() > 0,
        rest == objects.drop_first(),
        total + 2 + objects[0].bytes.len() <= 253,
        chosen_rightly(rest, total + 2 + objects[0].bytes.len(), next, t),
    ensures
        chosen_rightly(
            objects,
            total,
            next,
            Selection { chosen: seq![objects[0]] + t.chosen, next: t.next },
        ),
{
    let o = objects[0];
    let chosen = seq![o] + t.chosen;
    let s = Selection { chosen, next: t.next };
    let used = total + 2 + o.bytes.len();
    assert forall|i: int| 0 < i < objects.len() implies #[trigger] objects[i] == rest[i - 1] by {}
    assert forall|i: int| 0 < i < chosen.len() implies #[trigger] chosen[i] == t.chosen[i - 1] by {}
    assert(chosen.drop_first() =~= t.chosen);
    assert forall|i: int| 0 <= i < t.chosen.len() implies objects.contains(
        #[trigger] t.chosen[i],
    ) && o.id < t.chosen[i].id by {
        assert(rest.contains(t.chosen[i]));
        let k = choose|k: int| 0 <= k < rest.len() && rest[k] == t.chosen[i];
        assert(objects[k + 1] == t.chosen[i]);
    }
    lemma_no_room_before(chosen, o.id as int);
    assert(objects.contains(o));
    assert forall|i: int| 0 <= i < chosen.len() implies objects.contains(#[trigger] chosen[i]) by {
        if i > 0 {
            assert(chosen[i] == t.chosen[i - 1]);
        }
    }
    assert forall|x: Object| #[trigger] chosen.contains(x) <==> x == o || t.chosen.contains(x) by {
        assert(chosen[0] == o);
        if t.chosen.contains(x) {
            let k = choose|k: int| 0 <= k < t.chosen.len() && t.chosen[k] == x;
            assert(chosen[k + 1] == x);
        }
        if chosen.contains(x) {
            let k = choose|k: int| 0 <= k < chosen.len() && chosen[k] == x;
            if k > 0 {
                assert(t.chosen[k - 1] == x);
            }
        }
    }
    assert forall|i: int| 0 <= i < objects.len() implies (chosen.contains(#[trigger] objects[i])
        <==> fits(chosen, objects[i], total)) by {
        if i > 0 {
            assert(objects[0].id < objects[i].id);
            assert(rest[i - 1] == objects[i]);
            assert(room_before(chosen, objects[i].id as int) == room_before(
                t.chosen,
                objects[i].id as int,
            ) + 2 + o.bytes.len());
            assert(fits(t.chosen, rest[i - 1], used) <==> fits(chosen, objects[i], total));
        }
    }
    if next == 0 && s.next != 0 {
        let k = choose|k: int|
            0 <= k < rest.len() && (#[trigger] rest[k]).id == t.next && !t.chosen.contains(rest[k]);
        assert(objects[k + 1] == rest[k]);
        assert(objects[0].id < objects[k + 1].id);
        assert(!chosen.contains(objects[k + 1]));
    }
    if next == 0 {
        assert forall|i: int|
            0 <= i < objects.len() && (#[trigger] objects[i]).id > 0 && !chosen.contains(
                objects[i],
            ) implies s.next != 0 && s.next <= objects[i].id by {
            if i > 0 {
                assert(rest[i - 1] == objects[i]);
            }
        }
    }
}

/// A stream of identification objects begins at the object that was asked for, if the
/// device has it, and else at the first one. It holds every object from there on that fits
/// behind those before it, by ascending ids, with its text. What does not fit is left out,
/// and the first such object, but for object 0, is told as the one to ask for next; if
/// there is none, none is told. A text of more than 245 bytes makes the whole a failure.
#[verifier::rlimit(40)]
pub proof fn law_streams_are_complete(ident: Map<u8, String>, code: u8, object_id: u8)
    requires
        code != 4,
    ensures
        ({
            let from = if exists_on(ident, object_id as int) {
                object_id as int
            } else {
                0
            };
            let too_long = exists|id: int|
                from <= id < 256 && #[trigger] exists_on(ident, id) && told_of(ident, id).len() > 245;
            match identification_selection(ident, code, object_id) {
                Err(e) => too_long && e == ErrorCode::ServerDeviceFailure,
                Ok(s) => {
                    &&& !too_long
                    &&& forall|i: int, j: int|
                        0 <= i < j < s.chosen.len() ==> (#[trigger] s.chosen[i]).id < (
                        #[trigger] s.chosen[j]).id
                    &&& forall|i: int|
                        0 <= i < s.chosen.len() ==> from <= (#[trigger] s.chosen[i]).id && exists_on(
                            ident,
                            s.chosen[i].id as int,
                        ) && s.chosen[i].bytes == told_of(ident, s.chosen[i].id as int)
                    &&& forall|id: int|
                        from <= id < 256 && #[trigger] exists_on(ident, id) ==> ({
                            let o = Object { id: id as u8, bytes: told_of(ident, id) };
                            &&& s.chosen.contains(o) <==> 10 + room_before(s.chosen, id) + 2
                                + told_of(ident, id).len() <= 253
                            &&& id > 0 && !s.chosen.contains(o) ==> s.next != 0 && s.next <= id
                        })
                    &&& s.next != 0 ==> from <= s.next && exists_on(ident, s.next as int)
                        && !s.chosen.contains(
                        Object { id: s.next, bytes: told_of(ident, s.next as int) },
                    )
                },
            }
        }),
{
    let from = if exists_on(ident, object_id as int) {
        object_id as int
    } else {
        0
    };
    assert(first_object(ident, object_id) == from);
    let all = objects_from(ident, from);
    law_objects_of_a_device(ident, from);
    lemma_selection(all, 10, 0);
    assert forall|id: int| from <= id < 256 && #[trigger] exists_on(ident, id) implies all.contains(
        Object { id: id as u8, bytes: told_of(ident, id) },
    ) by {
        let k = choose|k: int| 0 <= k < all.len() && (#[trigger] all[k]).id == id;
        assert(all[k] == (Object { id: id as u8, bytes: told_of(ident, id) }));
    }
    match identification_selection(ident, code, object_id) {
        Err(e) => {
            let k = choose|k: int| 0 <= k < all.len() && (#[trigger] all[k]).bytes.len() > 245;
            assert(exists_on(ident, all[k].id as int));
        },
        Ok(s) => {
            assert(chosen_rightly(all, 10, 0, s));
            assert forall|id: int| from <= id < 256 && #[trigger] exists_on(
                ident,
                id,
            ) implies told_of(ident, id).len() <= 245 by {
                let o = Object { id: id as u8, bytes: told_of(ident, id) };
                let k = choose|k: int| 0 <= k < all.len() && all[k] == o;
                assert(!(all[k].bytes.len() > 245));
            }
            assert forall|i: int| 0 <= i < s.chosen.len() implies from <= (
            #[trigger] s.chosen[i]).id && exists_on(ident, s.chosen[i].id as int)
                && s.chosen[i].bytes == told_of(ident, s.chosen[i].id as int) by {
                assert(all.contains(s.chosen[i]));
                let k = choose|k: int| 0 <= k < all.len() && all[k] == s.chosen[i];
                assert(from <= all[k].id);
            }
            assert forall|id: int| from <= id < 256 && #[trigger] exists_on(ident, id) implies ({
                let o = Object { id: id as u8, bytes: told_of(ident, id) };
                &&& s.chosen.contains(o) <==> 10 + room_before(s.chosen, id) + 2 + told_of(
                    ident,
                    id,
                ).len() <= 253
                &&& id > 0 && !s.chosen.contains(o) ==> s.next != 0 && s.next <= id
            }) by {
                let o = Object { id: id as u8, bytes: told_of(ident, id) };
                let k = choose|k: int| 0 <= k < all.len() && all[k] == o;
                assert(s.chosen.contains(all[k]) <==> fits(s.chosen, all[k], 10));
            }
            if s.next != 0 {
                let k = choose|k: int|
                    0 <= k < all.len() && (#[trigger] all[k]).id == s.next && !s.chosen.contains(
                        all[k],
                    );
                assert(all[k] == (Object { id: s.next, bytes: told_of(ident, s.next as int) }));
            }
        },
    }
}

/// If all objects of a device fit one answer, a stream holds them all and nothing more
/// follows.
pub proof fn law_short_streams_hold_everything(
    ident: Map<u8, String>,
    code: u8,
    object_id: u8,
    id: int,
)
    requires
        code != 4,
        0 < id < 256,
        exists_on(ident, id),
        exists_on(ident, object_id as int) ==> object_id <= id,
        identification_selection(ident, code, object_id) matches Ok(s) && s.next == 0,
    ensures
        identification_selection(ident, code, object_id)->Ok_0.chosen.contains(
            Object { id: id as u8, bytes: told_of(ident, id) },
        ),
{
    law_streams_are_complete(ident, code, object_id);
}

/// A single object that the device has is answered alone, if its text has at most 241
/// bytes; a text of more than 245 bytes is a failure. One that the device does not have is
/// no address.
pub proof fn law_single_objects(ident: Map<u8, String>, object_id: u8)
    ensures
        ({
            let r = identification_selection(ident, 4, object_id);
            let bytes = told_of(ident, object_id as int);
            &&& !exists_on(ident, object_id as int) ==> r == Err::<Selection, ErrorCode>(
                ErrorCode::IllegalDataAddress,
            )
            &&& exists_on(ident, object_id as int) && bytes.len() <= 241 ==> r == Ok::<
                Selection,
                ErrorCode,
            >(Selection { chosen: seq![Object { id: object_id, bytes }], next: 0 })
            &&& exists_on(ident, object_id as int) && bytes.len() > 245 ==> r == Err::<
                Selection,
                ErrorCode,
            >(ErrorCode::ServerDeviceFailure)
        }),
{
    if exists_on(ident, object_id as int) {
        let all = objects_from(ident, object_id as int);
        law_objects_of_a_device(ident, object_id as int);
        let bytes = told_of(ident, object_id as int);
        let k = choose|k: int| 0 <= k < all.len() && (#[trigger] all[k]).id == object_id;
        if k > 0 {
            assert(all[0].id < all[k].id);
        }
        assert(all[0] == (Object { id: object_id, bytes }));
    }
}

proof fn lemma_single(objects: Seq<Object>, next: u8)
    ensures
        ({
            match selection(objects, 10, next, true) {
                None => exists|i: int|
                    0 <= i < objects.len() && (#[trigger] objects[i]).bytes.len() > 245 && forall|j: int|
                        0 <= j < i ==> 241 < (#[trigger] objects[j]).bytes.len() <= 245,
                Some(s) => {
                    &&& next != 0 ==> s.next == next
                    &&& s.chosen.len() <= 1
                    &&& s.chosen.len() == 0 ==> forall|j: int|
                        0 <= j < objects.len() ==> 241 < (#[trigger] objects[j]).bytes.len() <= 245
                    &&& s.chosen.len() == 1 ==> exists|i: int|
                        0 <= i < objects.len() && #[trigger] objects[i] == s.chosen[0]
                            && objects[i].bytes.len() <= 241 && forall|j: int|
                            0 <= j < i ==> 241 < (#[trigger] objects[j]).bytes.len() <= 245
                },
            }
        }),
    decreases objects.len(),
{
    if objects.len() > 0 {
        let o = objects[0];
        let rest = objects.drop_first();
        if 241 < o.bytes.len() <= 245 {
            let later = if next == 0 {
                o.id
            } else {
                next
            };
            lemma_single(rest, later);
            assert forall|j: int| 0 < j < objects.len() implies #[trigger] objects[j] == rest[j
                - 1] by {}
            match selection(rest, 10, later, true) {
                None => {
                    let i = choose|i: int|
                        0 <= i < rest.len() && (#[trigger] rest[i]).bytes.len() > 245 && forall|
                            j: int,
                        | 0 <= j < i ==> 241 < (#[trigger] rest[j]).bytes.len() <= 245;
                    assert(objects[i + 1].bytes.len() > 245);
                },
                Some(s) => {
                    if s.chosen.len() == 1 {
                        let i = choose|i: int|
                            0 <= i < rest.len() && #[trigger] rest[i] == s.chosen[0]
                                && rest[i].bytes.len() <= 241 && forall|j: int|
                                0 <= j < i ==> 241 < (#[trigger] rest[j]).bytes.len() <= 245;
                        assert(objects[i + 1] == s.chosen[0]);
                    }
                },
            }
        } else if o.bytes.len() <= 241 {
            assert(objects[0] == selection(objects, 10, next, true)->0.chosen[0]);
        } else {
            assert(objects[0].bytes.len() > 245);
        }
    }
}

/// A single object of 242 to 245 bytes fits no answer. It is told as the one to ask for
/// next, and the answer holds the first later object that fits, if there is one before any
/// that makes the whole a failure.
#[verifier::rlimit(40)]
pub proof fn law_single_objects_that_do_not_fit(ident: Map<u8, String>, object_id: u8)
    requires
        object_id > 0,
        exists_on(ident, object_id as int),
        241 < told_of(ident, object_id as int).len() <= 245,
    ensures
        ({
            match identification_selection(ident, 4, object_id) {
                Err(e) => e == ErrorCode::ServerDeviceFailure && exists|id: int|
                    object_id < id < 256 && #[trigger] exists_on(ident, id) && told_of(
                        ident,
                        id,
                    ).len() > 245,
                Ok(s) => {
                    &&& s.next == object_id
                    &&& s.chosen.len() <= 1
                    &&& s.chosen.len() == 1 ==> ({
                        let o = s.chosen[0];
                        &&& object_id < o.id && exists_on(ident, o.id as int)
                        &&& o.bytes == told_of(ident, o.id as int) && o.bytes.len() <= 241
                        &&& forall|id: int|
                            object_id <= id < o.id && #[trigger] exists_on(ident, id) ==> 241
                                < told_of(ident, id).len() <= 245
                    })
                    &&& s.chosen.len() == 0 ==> forall|id: int|
                        object_id <= id < 256 && #[trigger] exists_on(ident, id) ==> 241 < told_of(
                            ident,
                            id,
                        ).len() <= 245
                },
            }
        }),
{
    let from = object_id as int;
    let all = objects_from(ident, from);
    law_objects_of_a_device(ident, from);
    let k = choose|k: int| 0 <= k < all.len() && (#[trigger] all[k]).id == object_id;
    if k > 0 {
        assert(all[0].id < all[k].id);
    }
    assert(all[0].id == object_id);
    let rest = all.drop_first();
    lemma_single(all, 0);
    lemma_single(rest, object_id);
    assert(first_object(ident, object_id) == from);
    assert(selection(all, 10, 0, true) == selection(rest, 10, object_id, true));
    match identification_selection(ident, 4, object_id) {
        Err(e) => {
            let i = choose|i: int|
                0 <= i < all.len() && (#[trigger] all[i]).bytes.len() > 245 && forall|j: int|
                    0 <= j < i ==> 241 < (#[trigger] all[j]).bytes.len() <= 245;
            assert(i > 0);
            assert(all[0].id < all[i].id);
            assert(exists_on(ident, all[i].id as int));
        },
        Ok(s) => {
            if s.chosen.len() == 1 {
                let i = choose|i: int|
                    0 <= i < all.len() && #[trigger] all[i] == s.chosen[0] && all[i].bytes.len()
                        <= 241 && forall|j: int|
                        0 <= j < i ==> 241 < (#[trigger] all[j]).bytes.len() <= 245;
                assert(i > 0);
                assert(all[0].id < all[i].id);
                assert forall|id: int| from <= id < all[i].id && #[trigger] exists_on(
                    ident,
                    id,
                ) implies 241 < told_of(ident, id).len() <= 245 by {
                    let m = choose|m: int| 0 <= m < all.len() && (#[trigger] all[m]).id == id;
                    if m > i {
                        assert(all[i].id < all[m].id);
                    }
                    assert(m < i);
                }
            }
            if s.chosen.len() == 0 {
                assert forall|id: int| from <= id < 256 && #[trigger] exists_on(
                    ident,
                    id,
                ) implies 241 < told_of(ident, id).len() <= 245 by {
                    let m = choose|m: int| 0 <= m < all.len() && (#[trigger] all[m]).id == id;
                    assert(241 < all[m].bytes.len() <= 245);
                }
            }
        },
    }
}

/// What a master hands out of an identification is what it read.
pub proof fn law_identification_contents(d: DeviceIdentification, o: DeviceObject, i: int)
    ensures
        o@.id == o.id,
        o@.value == o.value@,
        d@.read_device_id_code == d.read_device_id_code,
        d@.conformity_level == d.conformity_level,
        d@.more_follows == d.more_follows,
        d@.next_object_id == d.next_object_id,
        d@.objects.len() == d.objects@.len(),
        0 <= i < d.objects@.len() ==> d@.objects[i] == d.objects@[i]@,
{
}

// ----- answers -----
/// Where object `i` begins in a list of objects.
pub open spec fn place(objects: Seq<Object>, i: int) -> int
    decreases i,
{
    if i <= 0 {
        0
    } else {
        place(objects, i - 1) + 2 + objects[i - 1].bytes.len()
    }
}

proof fn lemma_place(objects: Seq<Object>, i: int)
    requires
        0 < i <= objects.len(),
    ensures
        place(objects, i) == 2 + objects[0].bytes.len() + place(objects.drop_first(), i - 1),
    decreases i,
{
    reveal_with_fuel(place, 2);
    if i > 1 {
        lemma_place(objects, i - 1);
        assert(objects.drop_first()[i - 2] == objects[i - 1]);
    }
}

/// In a list, each object is its id, the length of its text and its text, one behind the
/// other.
#[verifier::rlimit(40)]
pub proof fn law_object_lists(objects: Seq<Object>, i: int)
    requires
        0 <= i < objects.len(),
        objects[i].bytes.len() <= 255,
    ensures
        ({
            let list = object_list(objects);
            let o = objects[i];
            let at = place(objects, i);
            &&& list.len() == place(objects, objects.len() as int)
            &&& 0 <= at && at + 2 + o.bytes.len() <= list.len()
            &&& list[at] == o.id
            &&& list[at + 1] == o.bytes.len()
            &&& list.subrange(at + 2, at + 2 + o.bytes.len()) == o.bytes
        }),
    decreases objects.len(),
{
    let rest = objects.drop_first();
    let first = objects[0];
    let n = 2 + first.bytes.len() as int;
    let list = object_list(objects);
    let tail = object_list(rest);
    assert(list.len() == n + tail.len());
    lemma_list_length(objects);
    if i == 0 {
        assert(list.subrange(2, n) =~= first.bytes);
    } else {
        law_object_lists(rest, i - 1);
        lemma_place(objects, i);
        let o = rest[i - 1];
        let at = place(rest, i - 1);
        assert(list[n + at] == tail[at]);
        assert(list[n + at + 1] == tail[at + 1]);
        assert(list.subrange(n + at + 2, n + at + 2 + o.bytes.len()) =~= tail.subrange(
            at + 2,
            at + 2 + o.bytes.len(),
        ));
    }
}

proof fn lemma_list_length(objects: Seq<Object>)
    ensures
        object_list(objects).len() == place(objects, objects.len() as int),
    decreases objects.len(),
{
    if objects.len() > 0 {
        lemma_list_length(objects.drop_first());
        lemma_place(objects, objects.len() as int);
    }
}

/// An answer begins with the sub function 14, the code of the request, the conformity
/// level (131 with an object from 128 on, 130 with one from 3 on, else 129), whether more
/// follows (255 or 0), where, and the number of objects; then come the objects.
pub proof fn law_identification_bytes(ident: Map<u8, String>, code: u8, object_id: u8)
    ensures
        match identification_selection(ident, code, object_id) {
            Err(e) => identification_answer(ident, code, object_id) == Err::<Seq<u8>, ErrorCode>(e),
            Ok(s) => identification_answer(ident, code, object_id) matches Ok(d) && {
                &&& d.len() == 6 + object_list(s.chosen).len()
                &&& d[0] == 14
                &&& d[1] == code
                &&& d[2] == if exists|id: u8| id >= 128 && #[trigger] ident.dom().contains(id) {
                    131int
                } else if exists|id: u8| id >= 3 && #[trigger] ident.dom().contains(id) {
                    130
                } else {
                    129
                }
                &&& d[3] == if s.next == 0 {
                    0int
                } else {
                    255
                }
                &&& d[4] == s.next
                &&& s.chosen.len() <= 255 ==> d[5] == s.chosen.len()
                &&& d.skip(6) == object_list(s.chosen)
            },
        },
{
    if let Ok(s) = identification_selection(ident, code, object_id) {
        let d = answer_data(code, conformity(ident).value(), s);
        assert(d.skip(6) =~= object_list(s.chosen));
    }
}

} // verus!
