//! The renewal: by how much, of what, and what is answered.

use crate::archive::active_records;
use crate::json::json_tree;
use crate::laws::archive::{
    records_are_of_all_rows, records_are_written, records_say_it_all, tells_reservation,
};
use crate::model::{FileReservationRow, RenewedReservation};
use crate::renew::{extension_seconds, is_renewal_of, is_renewed, old_expiry, RenewCall, RenewDone};
use vstd::prelude::*;

verus! {

/// An extension is what is asked for where that is from a minute to a year, the nearer
/// bound where it is not, and half an hour where nothing is asked for. Who asks for more
/// gets no less.
pub proof fn extension_is_what_is_asked_for(asked: i64, more: i64)
    ensures
        60 <= asked <= 31_536_000 ==> extension_seconds(Some(asked)) == asked,
        asked <= 60 ==> extension_seconds(Some(asked)) == 60,
        asked >= 31_536_000 ==> extension_seconds(Some(asked)) == 31_536_000,
        extension_seconds(None) == 1800,
        asked <= more ==> extension_seconds(Some(asked)) <= extension_seconds(Some(more)),
{
}

/// A renewal answers for every row that the database renewed, in order, with the expiry
/// that was remembered of it, and writes all their records with the agent as their
/// holder.
pub proof fn every_renewed_row_is_answered_for(
    done: RenewDone,
    call: RenewCall,
    rows: Vec<FileReservationRow>,
)
    requires
        is_renewal_of(done, call, rows),
    ensures
        done.rows == rows,
        done.old_expiries@.len() == rows@.len(),
        forall|i: int|
            #![trigger done.old_expiries@[i]]
            0 <= i < rows@.len() && rows@[i].id is Some && call.previous@.contains_key(
                rows@[i].id->0,
            ) ==> done.old_expiries@[i] == call.previous@[rows@[i].id->0],
        forall|i: int|
            #![trigger done.old_expiries@[i]]
            0 <= i < rows@.len() && !(rows@[i].id is Some && call.previous@.contains_key(
                rows@[i].id->0,
            )) ==> done.old_expiries@[i] == nearest(
                rows@[i].expires_ts.micros - nearest(call.request.extend * 1_000_000),
            ),
        done.write is Some <==> rows@.len() > 0,
        done.write matches Some(write) ==> {
            &&& write.context@ == "reservation renewal archive write project="@
                + call.project.slug@
            &&& write.op is FileReservation
            &&& write.op->project_slug@ == call.project.slug@
            &&& write.op->reservations@.len() == rows@.len()
            &&& forall|i: int|
                #![trigger write.op->reservations@[i]]
                0 <= i < rows@.len() ==> {
                    let record = json_tree(write.op->reservations@[i]);
                    &&& record is Object
                    &&& !record->Object_0.contains_key("released_ts"@)
                    &&& tells_reservation(
                        record->Object_0,
                        call.project.human_key@,
                        call.agent.name@,
                        rows@[i],
                    )
                }
        },
{
    let key = call.project.human_key@;
    let name = call.agent.name@;
    let records = active_records(key, name, rows@);
    records_are_of_all_rows(key, name, rows@);
    records_are_written(
        done.write,
        call.project.slug@,
        records,
        "reservation renewal archive write project="@ + call.project.slug@,
    );
    reveal_strlit("id");
    reveal_strlit("project");
    reveal_strlit("agent");
    reveal_strlit("path_pattern");
    reveal_strlit("exclusive");
    reveal_strlit("reason");
    reveal_strlit("created_ts");
    reveal_strlit("expires_ts");
    reveal_strlit("released_ts");
    assert("released_ts"@.len() == 11);
    assert("id"@.len() == 2 && "project"@.len() == 7 && "agent"@.len() == 5);
    assert("path_pattern"@.len() == 12 && "exclusive"@.len() == 9 && "reason"@.len() == 6);
    assert("created_ts"@.len() == 10 && "expires_ts"@.len() == 10);
    if let Some(write) = done.write {
        assert forall|i: int|
            #![trigger write.op->reservations@[i]]
            0 <= i < rows@.len() implies {
            let record = json_tree(write.op->reservations@[i]);
            &&& record is Object
            &&& !record->Object_0.contains_key("released_ts"@)
            &&& tells_reservation(record->Object_0, key, name, rows@[i])
        } by {
            assert(records[i] == json_tree(write.op->reservations@[i]));
            records_say_it_all(key, name, rows@[i]);
        }
    }
}

/// The nearest number that 64 bits can hold.
pub open spec fn nearest(n: int) -> int {
    if n > 0x7fff_ffff_ffff_ffff {
        0x7fff_ffff_ffff_ffff
    } else if n < -0x8000_0000_0000_0000 {
        -0x8000_0000_0000_0000
    } else {
        n
    }
}

/// A reservation whose expiry was not remembered expired the extension before it does
/// now; times beyond what 64 bits can hold count as the nearest that they can.
pub proof fn unknown_expiries_are_estimated(
    row: FileReservationRow,
    previous: Map<i64, i64>,
    extend: i64,
)
    ensures
        row.id matches Some(id) ==> (previous.contains_key(id) ==> old_expiry(
            row,
            previous,
            extend,
        ) == previous[id]),
        row.id is None || !previous.contains_key(row.id->0) ==> old_expiry(row, previous, extend)
            == nearest(row.expires_ts.micros - nearest(extend * 1_000_000)),
{
}

/// A renewed reservation is answered with its id and pattern, and with its expiry before
/// and now.
pub proof fn renewed_reservation_says_it_all(
    renewed: RenewedReservation,
    row: FileReservationRow,
    old: String,
)
    requires
        is_renewed(renewed, row, old),
    ensures
        row.id matches Some(id) ==> renewed.id == id,
        row.id is None ==> renewed.id == 0,
        renewed.path_pattern@ == row.path_pattern@,
        renewed.old_expires_ts@ == old@,
        renewed.new_expires_ts@ == row.expires_ts.iso@,
{
}

} // verus!
