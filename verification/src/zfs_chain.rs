//! Where the entries of an archive lie: the chain of tables in closed form,
//! and what a successful walk returns in terms of it.

use crate::binary_io::{le32_at, readable};
use crate::zfs::{
    entry_at, header_at, header_decode, zfs_decode, zfs_tables, zfs_walk, EntryView, ZfsHeader,
};
use vstd::arithmetic::div_mod::{
    lemma_fundamental_div_mod, lemma_fundamental_div_mod_converse_div,
    lemma_fundamental_div_mod_converse_mod,
};
use vstd::prelude::*;

verus! {

/// The offset of table `k`: the first table is where the header says, and
/// every table starts with the offset of the next.
pub open spec fn table_offset(data: Seq<u8>, h: ZfsHeader, k: nat) -> int
    decreases k,
{
    if k == 0 {
        h.filetable_offset as int
    } else {
        le32_at(data, table_offset(data, h, (k - 1) as nat))
    }
}

/// The bytes of one entry: the name field and five 32-bit fields.
pub open spec fn entry_len(h: ZfsHeader) -> int {
    h.max_filename_len + 20
}

/// The position of entry `i`: in table `i / files_per_table`, behind the
/// table's pointer and the entries before it in that table.
pub open spec fn entry_pos(data: Seq<u8>, h: ZfsHeader, i: nat) -> int {
    let per_table = h.files_per_table as nat;
    table_offset(data, h, i / per_table) + 4 + (i % per_table) * entry_len(h)
}

/// Whether slot `i` is unused: its name field starts with a zero byte.
pub open spec fn slot_is_empty(data: Seq<u8>, h: ZfsHeader, i: nat) -> bool {
    data[entry_pos(data, h, i)] == 0
}

/// Whether `entry` is what slot `i` holds, and the slot is in use.
pub open spec fn is_slot_entry(data: Seq<u8>, h: ZfsHeader, i: nat, entry: EntryView) -> bool {
    !slot_is_empty(data, h, i) && entry == entry_at(
        data,
        entry_pos(data, h, i),
        h.max_filename_len as int,
    )
}

/// `entries` are the entries of the slots from `from` on, none of them
/// empty, up to the declared count or to the first empty slot.
pub open spec fn lists_slots_from(
    data: Seq<u8>,
    h: ZfsHeader,
    from: nat,
    entries: Seq<EntryView>,
) -> bool {
    &&& from + entries.len() <= h.num_files
    &&& forall|j: int|
        0 <= j < entries.len() ==> is_slot_entry(data, h, (from + j) as nat, #[trigger] entries[j])
    &&& from + entries.len() < h.num_files ==> slot_is_empty(
        data,
        h,
        (from + entries.len()) as nat,
    )
}

/// The slot behind slot `i` is the next of its table, or the first of the
/// next table where `i` is the last of its own.
proof fn lemma_next_slot(i: int, p: int)
    requires
        0 <= i,
        0 < p,
    ensures
        i % p == p - 1 ==> (i + 1) / p == i / p + 1 && (i + 1) % p == 0,
        i % p != p - 1 ==> (i + 1) / p == i / p && (i + 1) % p == i % p + 1,
{
    lemma_fundamental_div_mod(i, p);
    let q = i / p;
    let r = i % p;
    if r == p - 1 {
        assert(i + 1 == (q + 1) * p + 0) by (nonlinear_arith)
            requires
                i == p * q + r,
                r == p - 1,
        ;
        lemma_fundamental_div_mod_converse_mod(i + 1, p, q + 1, 0);
        lemma_fundamental_div_mod_converse_div(i + 1, p, q + 1, 0);
    } else {
        assert(i + 1 == q * p + (r + 1)) by (nonlinear_arith)
            requires
                i == p * q + r,
        ;
        lemma_fundamental_div_mod_converse_mod(i + 1, p, q, r + 1);
        lemma_fundamental_div_mod_converse_div(i + 1, p, q, r + 1);
    }
}

/// A walk that starts at slot `i`, and knows the offset of the table behind
/// the current one, lists the slots from `i` on.
proof fn lemma_walk_lists_slots(data: Seq<u8>, h: ZfsHeader, i: nat, pos: int, next: int)
    requires
        h.files_per_table > 0,
        i <= h.num_files,
        pos == entry_pos(data, h, i),
        next == table_offset(data, h, i / (h.files_per_table as nat) + 1),
        zfs_walk(data, h, i, pos, next) is Ok,
    ensures
        lists_slots_from(data, h, i, zfs_walk(data, h, i, pos, next)->Ok_0.0),
    decreases h.num_files - i,
{
    let name_len = h.max_filename_len as int;
    let per_table = h.files_per_table as nat;
    let entries = zfs_walk(data, h, i, pos, next)->Ok_0.0;
    if i >= h.num_files {
        assert(entries.len() == 0);
    } else if !readable(data, pos, name_len) {
    } else if data[pos] == 0 {
        assert(entries.len() == 0);
        assert(slot_is_empty(data, h, i));
    } else {
        lemma_next_slot(i as int, per_table as int);
        let first = entry_at(data, pos, name_len);
        let table = table_offset(data, h, i / per_table);
        let slot = (i % per_table) as int;
        let len = entry_len(h);
        assert(pos == table + 4 + slot * len);
        let rest = if slot == h.files_per_table - 1 {
            zfs_walk(data, h, i + 1, next + 4, le32_at(data, next))
        } else {
            zfs_walk(data, h, i + 1, pos + name_len + 20, next)
        };
        if slot == h.files_per_table - 1 {
            assert(((i + 1) % per_table) * len == 0) by (nonlinear_arith)
                requires
                    (i + 1) % per_table == 0,
            ;
            lemma_walk_lists_slots(data, h, i + 1, next + 4, le32_at(data, next));
        } else {
            assert(((i + 1) % per_table) * len == slot * len + len) by (nonlinear_arith)
                requires
                    (i + 1) % per_table == slot + 1,
            ;
            lemma_walk_lists_slots(data, h, i + 1, pos + name_len + 20, next);
        }
        let tail = rest->Ok_0.0;
        assert(entries =~= seq![first] + tail);
        assert forall|j: int| 0 <= j < entries.len() implies is_slot_entry(
            data,
            h,
            (i + j) as nat,
            #[trigger] entries[j],
        ) by {
            if j > 0 {
                assert(entries[j] == tail[j - 1]);
                assert((i + 1 + (j - 1)) as nat == (i + j) as nat);
            }
        }
        assert((i + 1 + tail.len()) as nat == (i + entries.len()) as nat);
    }
}

/// The walk from the first table lists the slots from the first on.
pub proof fn lemma_tables_list_slots(data: Seq<u8>, h: ZfsHeader)
    requires
        zfs_tables(data, h) is Ok,
    ensures
        lists_slots_from(data, h, 0, zfs_tables(data, h)->Ok_0.0),
        zfs_tables(data, h)->Ok_0.0.len() <= h.num_files,
{
    let per_table = h.files_per_table as nat;
    assert(0nat / per_table == 0 && 0nat % per_table == 0) by {
        lemma_fundamental_div_mod_converse_mod(0, per_table as int, 0, 0);
        lemma_fundamental_div_mod_converse_div(0, per_table as int, 0, 0);
    }
    assert(table_offset(data, h, 1) == le32_at(data, table_offset(data, h, 0)));
    assert(entry_pos(data, h, 0) == h.filetable_offset + 4) by (nonlinear_arith)
        requires
            entry_pos(data, h, 0) == h.filetable_offset + 4 + (0nat % per_table) * entry_len(h),
            0nat % per_table == 0,
    ;
    lemma_walk_lists_slots(
        data,
        h,
        0,
        h.filetable_offset + 4,
        le32_at(data, h.filetable_offset as int),
    );
}

/// A listing holds the declared entries in their slots' order, up to the
/// first slot whose name starts with a zero byte and never more than the
/// header declares: entry `j` is the one stored in slot `j` of the chain of
/// tables, no listed slot is empty, and where the listing is shorter than
/// declared, the slot behind its last entry is empty.
pub proof fn lemma_listing_is_slots_up_to_first_empty(data: Seq<u8>, pos: int)
    requires
        zfs_decode(data, pos) is Ok,
    ensures
        lists_slots_from(data, header_at(data, pos), 0, zfs_decode(data, pos)->Ok_0.0.files),
        zfs_decode(data, pos)->Ok_0.0.files.len() <= header_at(data, pos).num_files,
        zfs_decode(data, pos)->Ok_0.0.version == header_at(data, pos).version,
        zfs_decode(data, pos)->Ok_0.0.max_filename_len == header_at(data, pos).max_filename_len,
{
    lemma_tables_list_slots(data, header_at(data, pos));
}

/// Whether slot `i` holds an entry that the walk can take: the slot can be
/// read whole and is not empty, and where it is the last of its table, the
/// pointer at the start of the next table can be read.
pub open spec fn slot_is_listable(data: Seq<u8>, h: ZfsHeader, i: nat) -> bool {
    let per_table = h.files_per_table as nat;
    &&& readable(data, entry_pos(data, h, i), entry_len(h))
    &&& !slot_is_empty(data, h, i)
    &&& i % per_table == per_table - 1 ==> readable(
        data,
        table_offset(data, h, i / per_table + 1),
        4,
    )
}

/// Whether the tables hold `n` entries for the walk: the first `n` slots are
/// listable, and `n` is the declared count, or slot `n` has a name field
/// that can be read and starts with a zero byte.
pub open spec fn holds_entries(data: Seq<u8>, h: ZfsHeader, n: nat) -> bool {
    &&& n <= h.num_files
    &&& forall|j: nat| j < n ==> #[trigger] slot_is_listable(data, h, j)
    &&& n < h.num_files ==> readable(data, entry_pos(data, h, n), h.max_filename_len as int)
        && slot_is_empty(data, h, n)
}

/// Where the tables hold `n` entries, a walk that starts at slot `i` of
/// them succeeds and lists the rest.
proof fn lemma_walk_takes_held_entries(
    data: Seq<u8>,
    h: ZfsHeader,
    n: nat,
    i: nat,
    pos: int,
    next: int,
)
    requires
        h.files_per_table > 0,
        h.num_files > 0 ==> h.max_filename_len > 0,
        holds_entries(data, h, n),
        i <= n,
        pos == entry_pos(data, h, i),
        next == table_offset(data, h, i / (h.files_per_table as nat) + 1),
    ensures
        zfs_walk(data, h, i, pos, next) is Ok,
        zfs_walk(data, h, i, pos, next)->Ok_0.0.len() == n - i,
    decreases n - i,
{
    let name_len = h.max_filename_len as int;
    let per_table = h.files_per_table as nat;
    if i < n {
        assert(slot_is_listable(data, h, i));
        lemma_next_slot(i as int, per_table as int);
        let slot = (i % per_table) as int;
        let len = entry_len(h);
        if slot == h.files_per_table - 1 {
            assert(((i + 1) % per_table) * len == 0) by (nonlinear_arith)
                requires
                    (i + 1) % per_table == 0,
            ;
            lemma_walk_takes_held_entries(data, h, n, i + 1, next + 4, le32_at(data, next));
        } else {
            assert(((i + 1) % per_table) * len == slot * len + len) by (nonlinear_arith)
                requires
                    (i + 1) % per_table == slot + 1,
            ;
            lemma_walk_takes_held_entries(data, h, n, i + 1, pos + name_len + 20, next);
        }
    }
}

/// An archive whose header can be read and declares tables of at least one
/// entry and, where it declares entries, a name field of at least one byte,
/// whose first table's pointer can be read, and whose tables hold `n`
/// entries, decodes to a listing of `n` entries.
pub proof fn lemma_archive_in_place_decodes(data: Seq<u8>, pos: int, n: nat)
    requires
        header_decode(data, pos) is Ok,
        header_at(data, pos).files_per_table > 0,
        header_at(data, pos).num_files > 0 ==> header_at(data, pos).max_filename_len > 0,
        readable(data, header_at(data, pos).filetable_offset as int, 4),
        holds_entries(data, header_at(data, pos), n),
    ensures
        zfs_decode(data, pos) is Ok,
        zfs_decode(data, pos)->Ok_0.0.files.len() == n,
{
    let h = header_at(data, pos);
    let per_table = h.files_per_table as nat;
    assert(0nat / per_table == 0 && 0nat % per_table == 0) by {
        lemma_fundamental_div_mod_converse_mod(0, per_table as int, 0, 0);
        lemma_fundamental_div_mod_converse_div(0, per_table as int, 0, 0);
    }
    assert(table_offset(data, h, 1) == le32_at(data, table_offset(data, h, 0)));
    assert((0nat % per_table) * entry_len(h) == 0) by (nonlinear_arith)
        requires
            0nat % per_table == 0,
    ;
    lemma_walk_takes_held_entries(
        data,
        h,
        n,
        0,
        h.filetable_offset + 4,
        le32_at(data, h.filetable_offset as int),
    );
}

} // verus!
