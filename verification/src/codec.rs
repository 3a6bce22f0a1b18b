//! The peer object: planning wire bytes and committing the planned state
//! changes.
//!
//! Every mutating operation is split in two. A `plan`-style method (named
//! `encode_*` or `decode_*` after the wire work it does) computes wire bytes
//! or parses them, and returns a [`Commit`] value capturing the intended
//! state change; [`Qpack::commit`] then applies that change in one step.
//! Planning never mutates the peer, so a host may plan and then abandon a
//! change without corrupting state.

use vstd::prelude::*;
use crate::dynamic_table::deref_seq;
use crate::dynamic_table::evict_len;
use crate::dynamic_table::max_usize;
use crate::dynamic_table::ref_seq;
use crate::dynamic_table::DynamicTable;
use crate::dynamic_table::Entry;
use crate::table::Table;
use crate::types::Header;
use crate::types::QpackError;
use crate::wire::dec_section_for;
use crate::wire::section_for;
use crate::wire::Decoder;
use crate::wire::Encoder;

verus! {

/// One planned dynamic-table mutation: a capacity change, or the insertion
/// of a field whose name has already been resolved against the tables.
#[derive(Debug)]
pub enum TableOp {
    SetCapacity { capacity: usize },
    Insert { name: Vec<u8>, value: Vec<u8> },
}

/// One decoder-stream instruction awaiting application on the encoder side.
#[derive(Debug)]
pub enum DecInstr {
    SectionAck { stream_id: u16 },
    StreamCancel { stream_id: u16 },
    InsertCountIncrement { increment: usize },
}

/// A planned state change, applied atomically by [`Qpack::commit`].
#[derive(Debug)]
pub enum Commit {
    /// Dynamic-table mutations; `sent` marks insertions this peer itself
    /// planned, which also advance its known sending count.
    TableOps { ops: Vec<TableOp>, sent: bool },
    /// A planned field section: takes one table reference per index and
    /// records the section for later acknowledgement.
    Section { stream_id: u16, required_insert_count: usize, refs: Vec<usize> },
    /// This peer acknowledges a section it decoded earlier.
    SectionAck { stream_id: u16 },
    /// This peer abandons a section it decoded earlier.
    StreamCancel { stream_id: u16 },
    /// This peer advances its record of acknowledged insertions.
    InsertCountIncrement { increment: usize },
    /// Decoder-stream instructions received from the peer decoder.
    DecoderInstrs { instrs: Vec<DecInstr> },
}

/// The effect of one table operation.
pub open spec fn table_op_applied(pre: DynamicTable, op: TableOp, post: DynamicTable) -> bool {
    &&& post.wf()
    &&& post.max_capacity == pre.max_capacity
    &&& post.known_received_count == pre.known_received_count
    &&& match op {
        TableOp::SetCapacity { capacity } => {
            &&& capacity <= pre.max_capacity
            &&& pre.can_evict_upto(capacity as nat)
            &&& post.capacity == capacity
            &&& post.insert_count == pre.insert_count
            &&& post.list@ == pre.list@.skip(evict_len(pre.list@, capacity as nat))
        },
        TableOp::Insert { name, value } => {
            &&& pre.can_insert_size((name@.len() + value@.len() + 32) as nat)
            &&& post.capacity == pre.capacity
            &&& post.insert_count == pre.insert_count + 1
            &&& exists|e: Entry|
                {
                    &&& e.name@ == name@
                    &&& e.value@ == value@
                    &&& e.outstanding_count == 0
                    &&& e.size == name@.len() + value@.len() + 32
                    &&& post.list@ == pre.list@.skip(
                        evict_len(pre.list@, (pre.capacity - e.size) as nat),
                    ).push(e)
                }
        },
    }
}

/// The effect of a run of table operations, applied in order.
pub open spec fn table_ops_applied(pre: DynamicTable, ops: Seq<TableOp>, post: DynamicTable) -> bool
    decreases ops.len(),
{
    if ops.len() == 0 {
        post == pre
    } else {
        exists|mid: DynamicTable|
            table_op_applied(pre, ops[0], mid) && table_ops_applied(mid, ops.skip(1), post)
    }
}

/// One applied run extends by one operation.
proof fn lemma_table_ops_push(
    pre: DynamicTable,
    ops: Seq<TableOp>,
    op: TableOp,
    mid: DynamicTable,
    post: DynamicTable,
)
    requires
        table_ops_applied(pre, ops, mid),
        table_op_applied(mid, op, post),
    ensures
        table_ops_applied(pre, ops.push(op), post),
    decreases ops.len(),
{
    if ops.len() == 0 {
        assert(ops.push(op)[0] == op);
        assert(ops.push(op).skip(1) =~= Seq::<TableOp>::empty());
        assert(table_ops_applied(post, Seq::<TableOp>::empty(), post));
    } else {
        let m0 = choose|m0: DynamicTable|
            table_op_applied(pre, ops[0], m0) && table_ops_applied(m0, ops.skip(1), mid);
        assert(ops.push(op)[0] == ops[0]);
        assert(ops.push(op).skip(1) =~= ops.skip(1).push(op));
        lemma_table_ops_push(m0, ops.skip(1), op, mid, post);
    }
}

/// Whether one table operation can apply to this table state: a capacity
/// change must respect the configured maximum and evict only unreferenced,
/// acknowledged entries; an insertion must fit the same way.
pub open spec fn table_op_applicable(t: DynamicTable, op: TableOp) -> bool {
    match op {
        TableOp::SetCapacity { capacity } => capacity <= t.max_capacity && t.can_evict_upto(
            capacity as nat,
        ),
        TableOp::Insert { name, value } => t.can_insert_size(
            (name@.len() + value@.len() + 32) as nat,
        ),
    }
}

/// Whether one received decoder-stream instruction can apply to this state:
/// an acknowledgement needs a pending section whose references can all be
/// released, a cancellation needs the same only where a section exists, and
/// an increment must be nonzero and stay within the insert count.
pub open spec fn dec_instr_applicable(e: Encoder, t: DynamicTable, instr: DecInstr) -> bool {
    match instr {
        DecInstr::SectionAck { stream_id } => (section_for(e.pending_sections@, stream_id)
            matches Some(sec) && deref_seq(
            t.list@,
            t.insert_count - t.list@.len(),
            sec.2@,
        ) is Some),
        DecInstr::StreamCancel { stream_id } => match section_for(
            e.pending_sections@,
            stream_id,
        ) {
            Some(sec) => deref_seq(t.list@, t.insert_count - t.list@.len(), sec.2@) is Some,
            None => true,
        },
        DecInstr::InsertCountIncrement { increment } => increment >= 1
            && t.known_received_count + increment <= t.insert_count,
    }
}

/// The effect of one decoder-stream instruction on the encoder state and
/// the table.
pub open spec fn dec_instr_applied(
    pre_e: Encoder,
    pre_t: DynamicTable,
    instr: DecInstr,
    post_e: Encoder,
    post_t: DynamicTable,
) -> bool {
    &&& post_t.wf()
    &&& post_e.wf()
    &&& post_t.max_capacity == pre_t.max_capacity
    &&& post_t.capacity == pre_t.capacity
    &&& post_t.insert_count == pre_t.insert_count
    &&& post_t.current_size == pre_t.current_size
    &&& post_e.known_sending_count == pre_e.known_sending_count
    &&& match instr {
        DecInstr::SectionAck { stream_id } => exists|sec: (u16, usize, Vec<usize>)|
            {
                &&& section_for(pre_e.pending_sections@, stream_id) == Some(sec)
                &&& section_for(post_e.pending_sections@, stream_id) is None
                &&& forall|sid: u16|
                    sid != stream_id ==> section_for(post_e.pending_sections@, sid)
                        == section_for(pre_e.pending_sections@, sid)
                &&& post_t.known_received_count == max_usize(
                    pre_t.known_received_count,
                    sec.1,
                )
                &&& deref_seq(
                    pre_t.list@,
                    pre_t.insert_count - pre_t.list@.len(),
                    sec.2@,
                ) == Some(post_t.list@)
            },
        DecInstr::StreamCancel { stream_id } => {
            &&& post_t.known_received_count == pre_t.known_received_count
            &&& if section_for(pre_e.pending_sections@, stream_id) is Some {
                exists|sec: (u16, usize, Vec<usize>)|
                    {
                        &&& section_for(pre_e.pending_sections@, stream_id) == Some(sec)
                        &&& section_for(post_e.pending_sections@, stream_id) is None
                        &&& forall|sid: u16|
                            sid != stream_id ==> section_for(post_e.pending_sections@, sid)
                                == section_for(pre_e.pending_sections@, sid)
                        &&& deref_seq(
                            pre_t.list@,
                            pre_t.insert_count - pre_t.list@.len(),
                            sec.2@,
                        ) == Some(post_t.list@)
                    }
            } else {
                post_e == pre_e && post_t.list@ == pre_t.list@
            }
        },
        DecInstr::InsertCountIncrement { increment } => {
            &&& post_e == pre_e
            &&& post_t.list@ == pre_t.list@
            &&& increment >= 1
            &&& pre_t.known_received_count + increment <= pre_t.insert_count
            &&& post_t.known_received_count == pre_t.known_received_count + increment
        },
    }
}

/// The effect of a run of decoder-stream instructions, applied in order.
pub open spec fn dec_instrs_applied(
    pre_e: Encoder,
    pre_t: DynamicTable,
    instrs: Seq<DecInstr>,
    post_e: Encoder,
    post_t: DynamicTable,
) -> bool
    decreases instrs.len(),
{
    if instrs.len() == 0 {
        post_e == pre_e && post_t == pre_t
    } else {
        exists|mid_e: Encoder, mid_t: DynamicTable|
            dec_instr_applied(pre_e, pre_t, instrs[0], mid_e, mid_t) && dec_instrs_applied(
                mid_e,
                mid_t,
                instrs.skip(1),
                post_e,
                post_t,
            )
    }
}

/// One applied run extends by one instruction.
proof fn lemma_dec_instrs_push(
    pre_e: Encoder,
    pre_t: DynamicTable,
    instrs: Seq<DecInstr>,
    i: DecInstr,
    mid_e: Encoder,
    mid_t: DynamicTable,
    post_e: Encoder,
    post_t: DynamicTable,
)
    requires
        dec_instrs_applied(pre_e, pre_t, instrs, mid_e, mid_t),
        dec_instr_applied(mid_e, mid_t, i, post_e, post_t),
    ensures
        dec_instrs_applied(pre_e, pre_t, instrs.push(i), post_e, post_t),
    decreases instrs.len(),
{
    if instrs.len() == 0 {
        assert(instrs.push(i)[0] == i);
        assert(instrs.push(i).skip(1) =~= Seq::<DecInstr>::empty());
        assert(dec_instrs_applied(post_e, post_t, Seq::<DecInstr>::empty(), post_e, post_t));
    } else {
        let (m0e, m0t) = choose|m0e: Encoder, m0t: DynamicTable|
            dec_instr_applied(pre_e, pre_t, instrs[0], m0e, m0t) && dec_instrs_applied(
                m0e,
                m0t,
                instrs.skip(1),
                mid_e,
                mid_t,
            );
        assert(instrs.push(i)[0] == instrs[0]);
        assert(instrs.push(i).skip(1) =~= instrs.skip(1).push(i));
        lemma_dec_instrs_push(m0e, m0t, instrs.skip(1), i, mid_e, mid_t, post_e, post_t);
    }
}

/// One end of a connection: its encoder and decoder halves, its tables, and
/// the configured bound on concurrently blocked streams.
pub struct Qpack {
    pub encoder: Encoder,
    pub decoder: Decoder,
    pub table: Table,
    pub blocked_streams_limit: u16,
}

impl Qpack {
    /// Well-formedness: the tables and pending sections are consistent, no
    /// pending section requires more insertions than have happened, and the
    /// count of blocked streams respects the configured limit.
    pub open spec fn wf(&self) -> bool {
        &&& self.table.wf()
        &&& self.encoder.wf()
        &&& self.decoder.current_blocked_streams <= self.blocked_streams_limit
        &&& forall|i: int|
            0 <= i < self.encoder.pending_sections@.len() ==> (#[trigger] self.encoder.pending_sections@[i]).1
                <= self.table.dynamic_table.insert_count
        &&& forall|i: int|
            0 <= i < self.decoder.pending_sections@.len() ==> (#[trigger] self.decoder.pending_sections@[i]).1
                <= self.table.dynamic_table.insert_count
    }

    pub fn new(blocked_streams_limit: u16, dynamic_table_max_capacity: usize) -> (r: Self)
        ensures
            r.wf(),
            r.blocked_streams_limit == blocked_streams_limit,
            r.table.dynamic_table.max_capacity == dynamic_table_max_capacity,
            r.table.dynamic_table.insert_count == 0,
            r.table.dynamic_table.capacity == 0,
            r.table.dynamic_table.known_received_count == 0,
            r.table.dynamic_table.current_size == 0,
            r.table.dynamic_table.list@.len() == 0,
            r.encoder.pending_sections@.len() == 0,
            r.encoder.known_sending_count == 0,
            r.decoder.pending_sections@.len() == 0,
            r.decoder.current_blocked_streams == 0,
    {
        Qpack {
            encoder: Encoder::new(),
            decoder: Decoder::new(),
            table: Table::new(dynamic_table_max_capacity),
            blocked_streams_limit,
        }
    }

    /// Whether the given fields can all be inserted into the dynamic table
    /// now.
    pub fn is_insertable(&self, headers: &Vec<Header>) -> (r: bool)
        requires
            self.wf(),
        ensures
            r == {
                &&& crate::dynamic_table::headers_total_size(headers@)
                    <= self.table.dynamic_table.capacity
                &&& self.table.dynamic_table.can_evict_upto(
                    (self.table.dynamic_table.capacity
                        - crate::dynamic_table::headers_total_size(headers@)) as nat,
                )
            },
    {
        self.table.is_insertable(headers)
    }

    pub fn get_insert_count(&self) -> (r: usize)
        ensures
            r == self.table.dynamic_table.insert_count,
    {
        self.table.get_insert_count()
    }

    /// Applies a planned state change. A commit touches the peer's state in
    /// one step; planning itself never does.
    pub fn commit(&mut self, c: Commit) -> (r: Result<(), QpackError>)
        requires
            old(self).wf(),
        ensures
            final(self).wf(),
            final(self).blocked_streams_limit == old(self).blocked_streams_limit,
            final(self).table.dynamic_table.max_capacity == old(
                self,
            ).table.dynamic_table.max_capacity,
            final(self).table.dynamic_table.insert_count >= old(
                self,
            ).table.dynamic_table.insert_count,
            final(self).decoder.current_blocked_streams == old(
                self,
            ).decoder.current_blocked_streams,
            match c {
                Commit::TableOps { ops, sent } => {
                    &&& final(self).decoder == old(self).decoder
                    &&& final(self).encoder.pending_sections@ == old(
                        self,
                    ).encoder.pending_sections@
                    &&& match r {
                        Ok(()) => {
                            &&& table_ops_applied(
                                old(self).table.dynamic_table,
                                ops@,
                                final(self).table.dynamic_table,
                            )
                            &&& final(self).encoder.known_sending_count == old(
                                self,
                            ).encoder.known_sending_count + (if sent {
                                ops@.len()
                            } else {
                                0
                            })
                        },
                        Err(e) => {
                            &&& e == QpackError::EncoderStreamError
                            &&& final(self).encoder.known_sending_count == old(
                                self,
                            ).encoder.known_sending_count
                            &&& {
                                ||| exists|k: int|
                                    #![trigger ops@.take(k)]
                                    0 <= k < ops@.len() && table_ops_applied(
                                        old(self).table.dynamic_table,
                                        ops@.take(k),
                                        final(self).table.dynamic_table,
                                    ) && !table_op_applicable(
                                        final(self).table.dynamic_table,
                                        ops@[k],
                                    )
                                ||| (sent && table_ops_applied(
                                    old(self).table.dynamic_table,
                                    ops@,
                                    final(self).table.dynamic_table,
                                ) && old(self).encoder.known_sending_count + ops@.len()
                                    > usize::MAX)
                            }
                        },
                    }
                },
                Commit::Section { stream_id, required_insert_count, refs } => {
                    &&& final(self).decoder == old(self).decoder
                    &&& final(self).table.dynamic_table.insert_count == old(
                        self,
                    ).table.dynamic_table.insert_count
                    &&& final(self).table.dynamic_table.known_received_count == old(
                        self,
                    ).table.dynamic_table.known_received_count
                    &&& match r {
                        Ok(()) => {
                            &&& ref_seq(
                                old(self).table.dynamic_table.list@,
                                old(self).table.dynamic_table.eviction_count(),
                                refs@,
                            ) == Some(final(self).table.dynamic_table.list@)
                            &&& (refs@.len() > 0 ==> (section_for(
                                final(self).encoder.pending_sections@,
                                stream_id,
                            ) matches Some(sec) && sec.1 == required_insert_count && sec.2@
                                == refs@))
                            &&& (refs@.len() == 0 ==> *final(self) == *old(self))
                        },
                        Err(e) => {
                            &&& refs@.len() > 0
                            &&& {
                                ||| (e == QpackError::EncoderStreamError && required_insert_count
                                    > old(self).table.dynamic_table.insert_count && *final(self)
                                    == *old(self))
                                ||| (e == QpackError::DecompressionFailed
                                    && required_insert_count <= old(
                                    self,
                                ).table.dynamic_table.insert_count && ref_seq(
                                    old(self).table.dynamic_table.list@,
                                    old(self).table.dynamic_table.eviction_count(),
                                    refs@,
                                ) is None && final(self).encoder == old(self).encoder && exists|
                                    k: int,
                                |
                                    0 <= k <= refs@.len() && ref_seq(
                                        old(self).table.dynamic_table.list@,
                                        old(self).table.dynamic_table.eviction_count(),
                                        refs@.take(k),
                                    ) == Some(final(self).table.dynamic_table.list@))
                            }
                        },
                    }
                },
                Commit::SectionAck { stream_id } => {
                    &&& final(self).encoder == old(self).encoder
                    &&& final(self).table.dynamic_table.list@ == old(
                        self,
                    ).table.dynamic_table.list@
                    &&& match r {
                        Ok(()) => {
                            &&& (dec_section_for(
                                old(self).decoder.pending_sections@,
                                stream_id,
                            ) matches Some(sec)
                                && final(self).table.dynamic_table.known_received_count
                                == max_usize(
                                old(self).table.dynamic_table.known_received_count,
                                sec.1,
                            ))
                            &&& final(self).decoder.pending_sections@ == old(
                                self,
                            ).decoder.pending_sections@.remove(
                                crate::wire::dec_first_index(
                                    old(self).decoder.pending_sections@,
                                    stream_id,
                                ),
                            )
                        },
                        Err(e) => {
                            &&& e == QpackError::DecoderStreamError
                            &&& !crate::wire::dec_has_sid(
                                old(self).decoder.pending_sections@,
                                stream_id,
                            )
                            &&& final(self).table.dynamic_table == old(
                                self,
                            ).table.dynamic_table
                        },
                    }
                },
                Commit::StreamCancel { stream_id } => {
                    &&& r is Ok
                    &&& final(self).encoder == old(self).encoder
                    &&& final(self).table.dynamic_table == old(self).table.dynamic_table
                    &&& (crate::wire::dec_has_sid(old(self).decoder.pending_sections@, stream_id)
                        ==> final(self).decoder.pending_sections@ == old(
                        self,
                    ).decoder.pending_sections@.remove(
                        crate::wire::dec_first_index(
                            old(self).decoder.pending_sections@,
                            stream_id,
                        ),
                    ))
                    &&& (!crate::wire::dec_has_sid(
                        old(self).decoder.pending_sections@,
                        stream_id,
                    ) ==> final(self).decoder.pending_sections@ == old(
                        self,
                    ).decoder.pending_sections@)
                },
                Commit::InsertCountIncrement { increment } => {
                    &&& final(self).encoder == old(self).encoder
                    &&& final(self).decoder == old(self).decoder
                    &&& final(self).table.dynamic_table.list@ == old(
                        self,
                    ).table.dynamic_table.list@
                    &&& final(self).table.dynamic_table.insert_count == old(
                        self,
                    ).table.dynamic_table.insert_count
                    &&& match r {
                        Ok(()) => {
                            &&& old(self).table.dynamic_table.known_received_count + increment
                                <= old(self).table.dynamic_table.insert_count
                            &&& final(self).table.dynamic_table.known_received_count == old(
                                self,
                            ).table.dynamic_table.known_received_count + increment
                        },
                        Err(e) => {
                            &&& e == QpackError::DecoderStreamError
                            &&& old(self).table.dynamic_table.known_received_count + increment
                                > old(self).table.dynamic_table.insert_count
                            &&& final(self).table.dynamic_table.known_received_count == old(
                                self,
                            ).table.dynamic_table.known_received_count
                        },
                    }
                },
                Commit::DecoderInstrs { instrs } => {
                    &&& final(self).decoder == old(self).decoder
                    &&& match r {
                        Ok(()) => dec_instrs_applied(
                            old(self).encoder,
                            old(self).table.dynamic_table,
                            instrs@,
                            final(self).encoder,
                            final(self).table.dynamic_table,
                        ),
                        Err(e) => final(self).table.dynamic_table.insert_count == old(
                            self,
                        ).table.dynamic_table.insert_count && exists|
                            k: int,
                            mid_e: Encoder,
                            mid_t: DynamicTable,
                        |
                            #![trigger dec_instrs_applied(old(self).encoder, old(self).table.dynamic_table, instrs@.take(k), mid_e, mid_t)]
                            0 <= k < instrs@.len() && dec_instrs_applied(
                                old(self).encoder,
                                old(self).table.dynamic_table,
                                instrs@.take(k),
                                mid_e,
                                mid_t,
                            ) && !dec_instr_applicable(mid_e, mid_t, instrs@[k]),
                    }
                },
            },
    {
        match c {
            Commit::TableOps { ops, sent } => self.commit_table_ops(ops, sent),
            Commit::Section { stream_id, required_insert_count, refs } => self.commit_section(
                stream_id,
                required_insert_count,
                refs,
            ),
            Commit::SectionAck { stream_id } => self.commit_section_ack(stream_id),
            Commit::StreamCancel { stream_id } => {
                self.decoder.cancel_section(stream_id);
                Ok(())
            },
            Commit::InsertCountIncrement { increment } => self.commit_insert_count_increment(
                increment,
            ),
            Commit::DecoderInstrs { instrs } => self.commit_decoder_instrs(instrs),
        }
    }

    /// Applies planned dynamic-table mutations in order.
    fn commit_table_ops(&mut self, ops: Vec<TableOp>, sent: bool) -> (r: Result<(), QpackError>)
        requires
            old(self).wf(),
        ensures
            final(self).wf(),
            final(self).blocked_streams_limit == old(self).blocked_streams_limit,
            final(self).table.dynamic_table.max_capacity == old(
                self,
            ).table.dynamic_table.max_capacity,
            final(self).table.dynamic_table.insert_count >= old(
                self,
            ).table.dynamic_table.insert_count,
            final(self).decoder == old(self).decoder,
            final(self).encoder.pending_sections@ == old(self).encoder.pending_sections@,
            match r {
                Ok(()) => {
                    &&& table_ops_applied(
                        old(self).table.dynamic_table,
                        ops@,
                        final(self).table.dynamic_table,
                    )
                    &&& final(self).encoder.known_sending_count == old(
                        self,
                    ).encoder.known_sending_count + (if sent {
                        ops@.len()
                    } else {
                        0
                    })
                },
                Err(e) => {
                    &&& e == QpackError::EncoderStreamError
                    &&& final(self).encoder.known_sending_count == old(
                        self,
                    ).encoder.known_sending_count
                    &&& {
                        ||| exists|k: int|
                            #![trigger ops@.take(k)]
                            0 <= k < ops@.len() && table_ops_applied(
                                old(self).table.dynamic_table,
                                ops@.take(k),
                                final(self).table.dynamic_table,
                            ) && !table_op_applicable(
                                final(self).table.dynamic_table,
                                ops@[k],
                            )
                        ||| (sent && table_ops_applied(
                            old(self).table.dynamic_table,
                            ops@,
                            final(self).table.dynamic_table,
                        ) && old(self).encoder.known_sending_count + ops@.len() > usize::MAX)
                    }
                },
            },
    {
        let ghost pre = self.table.dynamic_table;
        let count = ops.len();
        let mut i: usize = 0;
        proof {
            assert(ops@.take(0) =~= Seq::<TableOp>::empty());
        }
        let ghost all_ops = ops@;
        while i < count
            invariant
                self.wf(),
                count == all_ops.len(),
                ops@ == all_ops,
                i <= count,
                pre == old(self).table.dynamic_table,
                self.blocked_streams_limit == old(self).blocked_streams_limit,
                self.table.dynamic_table.max_capacity == pre.max_capacity,
                self.table.dynamic_table.insert_count >= pre.insert_count,
                self.table.dynamic_table.known_received_count == pre.known_received_count,
                self.decoder == old(self).decoder,
                self.encoder == old(self).encoder,
                self.table.static_table == old(self).table.static_table,
                table_ops_applied(pre, all_ops.take(i as int), self.table.dynamic_table),
            decreases count - i,
        {
            let ghost mid = self.table.dynamic_table;
            let op_result = match &ops[i] {
                TableOp::SetCapacity { capacity } => self.table.dynamic_table.set_capacity(
                    *capacity,
                ),
                TableOp::Insert { name, value } => {
                    let name_copy = crate::dynamic_table::copy_bytes(name);
                    let value_copy = crate::dynamic_table::copy_bytes(value);
                    match Entry::new(name_copy, value_copy) {
                        Some(e) => self.table.dynamic_table.insert_table_entry(e),
                        None => Err(QpackError::EncoderStreamError),
                    }
                },
            };
            match op_result {
                Ok(()) => (),
                Err(e) => {
                    proof {
                        assert(!table_op_applicable(self.table.dynamic_table, all_ops[i as int]));
                        assert(0 <= (i as int) && (i as int) < all_ops.len()
                            && table_ops_applied(
                            old(self).table.dynamic_table,
                            all_ops.take(i as int),
                            self.table.dynamic_table,
                        ));
                    }
                    return Err(QpackError::EncoderStreamError);
                },
            }
            proof {
                if all_ops[i as int] is Insert {
                    // The entry that was inserted matches the operation.
                    assert(self.table.dynamic_table.insert_count == mid.insert_count + 1);
                }
                assert(table_op_applied(mid, all_ops[i as int], self.table.dynamic_table));
                assert(all_ops.take(i as int + 1) =~= all_ops.take(i as int).push(
                    all_ops[i as int],
                ));
                lemma_table_ops_push(
                    pre,
                    all_ops.take(i as int),
                    all_ops[i as int],
                    mid,
                    self.table.dynamic_table,
                );
            }
            i = i + 1;
        }
        proof {
            assert(all_ops.take(count as int) =~= all_ops);
        }
        if sent {
            match self.encoder.known_sending_count.checked_add(count) {
                Some(next) => {
                    self.encoder.known_sending_count = next;
                },
                None => {
                    proof {
                        assert(all_ops.take(all_ops.len() as int) =~= all_ops);
                        assert(0 <= all_ops.len() as int <= all_ops.len() && table_ops_applied(
                            old(self).table.dynamic_table,
                            all_ops.take(all_ops.len() as int),
                            self.table.dynamic_table,
                        ));
                    }
                    return Err(QpackError::EncoderStreamError);
                },
            }
        }
        Ok(())
    }

    /// Takes the planned references and records the pending section.
    fn commit_section(
        &mut self,
        stream_id: u16,
        required_insert_count: usize,
        refs: Vec<usize>,
    ) -> (r: Result<(), QpackError>)
        requires
            old(self).wf(),
        ensures
            final(self).wf(),
            final(self).blocked_streams_limit == old(self).blocked_streams_limit,
            final(self).table.dynamic_table.max_capacity == old(
                self,
            ).table.dynamic_table.max_capacity,
            final(self).table.dynamic_table.insert_count == old(
                self,
            ).table.dynamic_table.insert_count,
            final(self).table.dynamic_table.known_received_count == old(
                self,
            ).table.dynamic_table.known_received_count,
            final(self).decoder == old(self).decoder,
            match r {
                Ok(()) => {
                    &&& ref_seq(
                        old(self).table.dynamic_table.list@,
                        old(self).table.dynamic_table.eviction_count(),
                        refs@,
                    ) == Some(final(self).table.dynamic_table.list@)
                    &&& (refs@.len() > 0 ==> (section_for(
                        final(self).encoder.pending_sections@,
                        stream_id,
                    ) matches Some(sec) && sec.1 == required_insert_count && sec.2@ == refs@))
                    &&& (refs@.len() == 0 ==> *final(self) == *old(self))
                },
                Err(e) => {
                    &&& refs@.len() > 0
                    &&& {
                        ||| (e == QpackError::EncoderStreamError && required_insert_count > old(
                            self,
                        ).table.dynamic_table.insert_count && *final(self) == *old(self))
                        ||| (e == QpackError::DecompressionFailed && required_insert_count <= old(
                            self,
                        ).table.dynamic_table.insert_count && ref_seq(
                            old(self).table.dynamic_table.list@,
                            old(self).table.dynamic_table.eviction_count(),
                            refs@,
                        ) is None && final(self).encoder == old(self).encoder && exists|k: int|
                            0 <= k <= refs@.len() && ref_seq(
                                old(self).table.dynamic_table.list@,
                                old(self).table.dynamic_table.eviction_count(),
                                refs@.take(k),
                            ) == Some(final(self).table.dynamic_table.list@))
                    }
                },
            },
    {
        if refs.len() == 0 {
            proof {
                assert(ref_seq(
                    self.table.dynamic_table.list@,
                    self.table.dynamic_table.eviction_count(),
                    refs@,
                ) == Some(self.table.dynamic_table.list@));
            }
            return Ok(());
        }
        if required_insert_count > self.table.get_insert_count() {
            return Err(QpackError::EncoderStreamError);
        }
        let ghost grefs = refs@;
        match self.table.dynamic_table.ref_section(&refs) {
            Ok(()) => (),
            Err(e) => {
                return Err(e);
            },
        }
        let ghost mid_enc = self.encoder.pending_sections@;
        self.encoder.add_section(stream_id, required_insert_count, refs);
        proof {
            let s = self.encoder.pending_sections@;
            let i = choose|i: int|
                0 <= i < s.len() && (#[trigger] s[i]).0 == stream_id && s[i].1
                    == required_insert_count && s[i].2@ == grefs;
            assert forall|j: int| 0 <= j < i implies (#[trigger] s[j]).0 != stream_id by {
                assert(crate::wire::sids_unique(s));
            }
            crate::wire::lemma_section_for_found(s, i, stream_id);
        }
        Ok(())
    }

    /// Acknowledges a section this peer decoded earlier: raises the known
    /// received count to that section's required insert count.
    fn commit_section_ack(&mut self, stream_id: u16) -> (r: Result<(), QpackError>)
        requires
            old(self).wf(),
        ensures
            final(self).wf(),
            final(self).blocked_streams_limit == old(self).blocked_streams_limit,
            final(self).table.dynamic_table.max_capacity == old(
                self,
            ).table.dynamic_table.max_capacity,
            final(self).table.dynamic_table.insert_count == old(
                self,
            ).table.dynamic_table.insert_count,
            final(self).decoder.current_blocked_streams == old(
                self,
            ).decoder.current_blocked_streams,
            final(self).encoder == old(self).encoder,
            final(self).table.dynamic_table.list@ == old(self).table.dynamic_table.list@,
            match r {
                Ok(()) => {
                    &&& (dec_section_for(old(self).decoder.pending_sections@, stream_id)
                        matches Some(sec) && final(self).table.dynamic_table.known_received_count
                        == max_usize(old(self).table.dynamic_table.known_received_count, sec.1))
                    &&& final(self).decoder.pending_sections@ == old(
                        self,
                    ).decoder.pending_sections@.remove(
                        crate::wire::dec_first_index(
                            old(self).decoder.pending_sections@,
                            stream_id,
                        ),
                    )
                },
                Err(e) => {
                    &&& e == QpackError::DecoderStreamError
                    &&& !crate::wire::dec_has_sid(old(self).decoder.pending_sections@, stream_id)
                    &&& final(self).table.dynamic_table == old(self).table.dynamic_table
                },
            },
    {
        let ric = match self.decoder.take_section(stream_id) {
            Some(ric) => ric,
            None => {
                return Err(QpackError::DecoderStreamError);
            },
        };
        let empty: Vec<usize> = Vec::new();
        let r = self.table.dynamic_table.ack_section(ric, &empty);
        proof {
            assert(empty@.len() == 0);
            assert(deref_seq(
                old(self).table.dynamic_table.list@,
                old(self).table.dynamic_table.eviction_count(),
                empty@,
            ) == Some(old(self).table.dynamic_table.list@));
        }
        match r {
            Ok(()) => Ok(()),
            Err(_) => {
                proof {
                    assert(false);
                }
                Err(QpackError::DecoderStreamError)
            },
        }
    }

    /// Advances the known received count by a planned increment. A zero
    /// increment is a no-op.
    fn commit_insert_count_increment(&mut self, increment: usize) -> (r: Result<(), QpackError>)
        requires
            old(self).wf(),
        ensures
            final(self).wf(),
            final(self).blocked_streams_limit == old(self).blocked_streams_limit,
            final(self).encoder == old(self).encoder,
            final(self).decoder == old(self).decoder,
            final(self).table.dynamic_table.list@ == old(self).table.dynamic_table.list@,
            final(self).table.dynamic_table.insert_count == old(
                self,
            ).table.dynamic_table.insert_count,
            final(self).table.dynamic_table.max_capacity == old(
                self,
            ).table.dynamic_table.max_capacity,
            match r {
                Ok(()) => {
                    &&& old(self).table.dynamic_table.known_received_count + increment <= old(
                        self,
                    ).table.dynamic_table.insert_count
                    &&& final(self).table.dynamic_table.known_received_count == old(
                        self,
                    ).table.dynamic_table.known_received_count + increment
                },
                Err(e) => {
                    &&& e == QpackError::DecoderStreamError
                    &&& old(self).table.dynamic_table.known_received_count + increment > old(
                        self,
                    ).table.dynamic_table.insert_count
                    &&& final(self).table.dynamic_table.known_received_count == old(
                        self,
                    ).table.dynamic_table.known_received_count
                },
            },
    {
        if increment == 0 {
            return Ok(());
        }
        self.table.dynamic_table.insert_count_increment(increment)
    }

    /// Applies received decoder-stream instructions in order.
    fn commit_decoder_instrs(&mut self, instrs: Vec<DecInstr>) -> (r: Result<(), QpackError>)
        requires
            old(self).wf(),
        ensures
            final(self).wf(),
            final(self).blocked_streams_limit == old(self).blocked_streams_limit,
            final(self).decoder == old(self).decoder,
            final(self).table.dynamic_table.max_capacity == old(
                self,
            ).table.dynamic_table.max_capacity,
            final(self).table.dynamic_table.insert_count >= old(
                self,
            ).table.dynamic_table.insert_count,
            match r {
                Ok(()) => dec_instrs_applied(
                    old(self).encoder,
                    old(self).table.dynamic_table,
                    instrs@,
                    final(self).encoder,
                    final(self).table.dynamic_table,
                ),
                Err(e) => final(self).table.dynamic_table.insert_count == old(
                    self,
                ).table.dynamic_table.insert_count && exists|
                    k: int,
                    mid_e: Encoder,
                    mid_t: DynamicTable,
                |
                    #![trigger dec_instrs_applied(old(self).encoder, old(self).table.dynamic_table, instrs@.take(k), mid_e, mid_t)]
                    0 <= k < instrs@.len() && dec_instrs_applied(
                        old(self).encoder,
                        old(self).table.dynamic_table,
                        instrs@.take(k),
                        mid_e,
                        mid_t,
                    ) && !dec_instr_applicable(mid_e, mid_t, instrs@[k]),
            },
    {
        let ghost pre_e = self.encoder;
        let ghost pre_t = self.table.dynamic_table;
        let count = instrs.len();
        let ghost all = instrs@;
        let mut i: usize = 0;
        proof {
            assert(all.take(0) =~= Seq::<DecInstr>::empty());
        }
        while i < count
            invariant
                self.wf(),
                count == all.len(),
                instrs@ == all,
                i <= count,
                pre_e == old(self).encoder,
                pre_t == old(self).table.dynamic_table,
                self.blocked_streams_limit == old(self).blocked_streams_limit,
                self.decoder == old(self).decoder,
                self.table.static_table == old(self).table.static_table,
                self.table.dynamic_table.max_capacity == pre_t.max_capacity,
                self.table.dynamic_table.insert_count == pre_t.insert_count,
                dec_instrs_applied(
                    pre_e,
                    pre_t,
                    all.take(i as int),
                    self.encoder,
                    self.table.dynamic_table,
                ),
            decreases count - i,
        {
            let ghost mid_e = self.encoder;
            let ghost mid_t = self.table.dynamic_table;
            let step = match &instrs[i] {
                DecInstr::SectionAck { stream_id } => self.apply_section_ack(*stream_id),
                DecInstr::StreamCancel { stream_id } => self.apply_stream_cancel(*stream_id),
                DecInstr::InsertCountIncrement { increment } => {
                    let r = self.table.dynamic_table.insert_count_increment(*increment);
                    r
                },
            };
            match step {
                Ok(()) => (),
                Err(e) => {
                    proof {
                        assert(!dec_instr_applicable(mid_e, mid_t, all[i as int]));
                        assert(0 <= (i as int) && (i as int) < all.len() && dec_instrs_applied(
                            pre_e,
                            pre_t,
                            all.take(i as int),
                            mid_e,
                            mid_t,
                        ));
                    }
                    return Err(e);
                },
            }
            proof {
                assert(dec_instr_applied(
                    mid_e,
                    mid_t,
                    all[i as int],
                    self.encoder,
                    self.table.dynamic_table,
                ));
                assert(all.take(i as int + 1) =~= all.take(i as int).push(all[i as int]));
                lemma_dec_instrs_push(
                    pre_e,
                    pre_t,
                    all.take(i as int),
                    all[i as int],
                    mid_e,
                    mid_t,
                    self.encoder,
                    self.table.dynamic_table,
                );
            }
            i = i + 1;
        }
        proof {
            assert(all.take(count as int) =~= all);
        }
        Ok(())
    }

    /// Applies one received Section Acknowledgment: removes the pending
    /// section, releases its references, and raises the known received
    /// count to its required insert count.
    fn apply_section_ack(&mut self, stream_id: u16) -> (r: Result<(), QpackError>)
        requires
            old(self).wf(),
        ensures
            final(self).wf(),
            final(self).blocked_streams_limit == old(self).blocked_streams_limit,
            final(self).decoder == old(self).decoder,
            final(self).table.static_table == old(self).table.static_table,
            final(self).table.dynamic_table.max_capacity == old(
                self,
            ).table.dynamic_table.max_capacity,
            final(self).table.dynamic_table.insert_count == old(
                self,
            ).table.dynamic_table.insert_count,
            match r {
                Ok(()) => dec_instr_applied(
                    old(self).encoder,
                    old(self).table.dynamic_table,
                    DecInstr::SectionAck { stream_id },
                    final(self).encoder,
                    final(self).table.dynamic_table,
                ),
                Err(e) => {
                    &&& (e == QpackError::DecoderStreamError || e
                        == QpackError::DecompressionFailed)
                    &&& {
                        ||| section_for(old(self).encoder.pending_sections@, stream_id) is None
                        ||| (section_for(old(self).encoder.pending_sections@, stream_id)
                            matches Some(sec) && deref_seq(
                            old(self).table.dynamic_table.list@,
                            old(self).table.dynamic_table.eviction_count(),
                            sec.2@,
                        ) is None)
                    }
                },
            },
    {
        let (ric, refs) = match self.encoder.take_section(stream_id) {
            Some(p) => p,
            None => {
                return Err(QpackError::DecoderStreamError);
            },
        };
        proof {
            crate::wire::lemma_section_for_is_element(
                old(self).encoder.pending_sections@,
                stream_id,
            );
        }
        match self.table.dynamic_table.ack_section(ric, &refs) {
            Ok(()) => Ok(()),
            Err(e) => Err(e),
        }
    }

    /// Applies one received Stream Cancellation: removes the pending
    /// section, if any, and releases its references.
    fn apply_stream_cancel(&mut self, stream_id: u16) -> (r: Result<(), QpackError>)
        requires
            old(self).wf(),
        ensures
            final(self).wf(),
            final(self).blocked_streams_limit == old(self).blocked_streams_limit,
            final(self).decoder == old(self).decoder,
            final(self).table.static_table == old(self).table.static_table,
            final(self).table.dynamic_table.max_capacity == old(
                self,
            ).table.dynamic_table.max_capacity,
            final(self).table.dynamic_table.insert_count == old(
                self,
            ).table.dynamic_table.insert_count,
            match r {
                Ok(()) => dec_instr_applied(
                    old(self).encoder,
                    old(self).table.dynamic_table,
                    DecInstr::StreamCancel { stream_id },
                    final(self).encoder,
                    final(self).table.dynamic_table,
                ),
                Err(e) => {
                    &&& e == QpackError::DecompressionFailed
                    &&& (section_for(old(self).encoder.pending_sections@, stream_id)
                        matches Some(sec) && deref_seq(
                        old(self).table.dynamic_table.list@,
                        old(self).table.dynamic_table.eviction_count(),
                        sec.2@,
                    ) is None)
                },
            },
    {
        let (_ric, refs) = match self.encoder.take_section(stream_id) {
            Some(p) => p,
            None => {
                return Ok(());
            },
        };
        match self.table.dynamic_table.ack_section(0, &refs) {
            Ok(()) => Ok(()),
            Err(e) => Err(e),
        }
    }
}

/// Whether a find result names a dynamic-table entry.
pub open spec fn dyn_ref(fr: (bool, bool, usize)) -> bool {
    !fr.1 && fr.2 != usize::MAX
}

/// The absolute dynamic-table indices referenced by the find results, in
/// order.
pub open spec fn dyn_refs(frs: Seq<(bool, bool, usize)>) -> Seq<usize>
    decreases frs.len(),
{
    if frs.len() == 0 {
        Seq::empty()
    } else if dyn_ref(frs[0]) {
        seq![frs[0].2] + dyn_refs(frs.skip(1))
    } else {
        dyn_refs(frs.skip(1))
    }
}

/// Appending a find result extends the referenced indices by at most one.
pub proof fn lemma_dyn_refs_push(frs: Seq<(bool, bool, usize)>, fr: (bool, bool, usize))
    ensures
        dyn_refs(frs.push(fr)) == if dyn_ref(fr) {
            dyn_refs(frs).push(fr.2)
        } else {
            dyn_refs(frs)
        },
    decreases frs.len(),
{
    if frs.len() == 0 {
        assert(frs.push(fr)[0] == fr);
        assert(frs.push(fr).skip(1) =~= Seq::<(bool, bool, usize)>::empty());
        assert(dyn_refs(Seq::<(bool, bool, usize)>::empty()) == Seq::<usize>::empty());
        assert(dyn_refs(frs) == Seq::<usize>::empty());
        if dyn_ref(fr) {
            assert(seq![fr.2] + Seq::<usize>::empty() =~= dyn_refs(frs).push(fr.2));
        }
    } else {
        assert(frs.push(fr)[0] == frs[0]);
        assert(frs.push(fr).skip(1) =~= frs.skip(1).push(fr));
        lemma_dyn_refs_push(frs.skip(1), fr);
        if dyn_ref(frs[0]) {
            if dyn_ref(fr) {
                assert(seq![frs[0].2] + dyn_refs(frs.skip(1)).push(fr.2) =~= (seq![frs[0].2]
                    + dyn_refs(frs.skip(1))).push(fr.2));
                assert(dyn_refs(frs.push(fr)) == seq![frs[0].2] + dyn_refs(frs.skip(1).push(fr)));
                assert(dyn_refs(frs) == seq![frs[0].2] + dyn_refs(frs.skip(1)));
            } else {
                assert(dyn_refs(frs.push(fr)) == seq![frs[0].2] + dyn_refs(frs.skip(1).push(fr)));
            }
        }
    }
}

/// The prefix metadata chosen for a field block: the required insert count
/// is one above the highest referenced absolute index (zero without
/// references); with the post-base form the base is the lowest referenced
/// index, otherwise the base equals the required insert count.
pub open spec fn meta_ok(
    frs: Seq<(bool, bool, usize)>,
    ric: usize,
    post_base: bool,
    base: usize,
) -> bool {
    if (forall|i: int| 0 <= i < frs.len() ==> !dyn_ref(#[trigger] frs[i])) {
        ric == 0 && !post_base && base == 0
    } else {
        &&& ric >= 1
        &&& exists|i: int| 0 <= i < frs.len() && dyn_ref(#[trigger] frs[i]) && frs[i].2 + 1 == ric
        &&& forall|i: int| 0 <= i < frs.len() && dyn_ref(#[trigger] frs[i]) ==> frs[i].2 < ric
        &&& if post_base {
            &&& (exists|i: int|
                0 <= i < frs.len() && dyn_ref(#[trigger] frs[i]) && frs[i].2 == base)
            &&& (forall|i: int|
                0 <= i < frs.len() && dyn_ref(#[trigger] frs[i]) ==> base <= frs[i].2)
        } else {
            base == ric
        }
    }
}

impl Qpack {
    /// Plans a Set Dynamic Table Capacity instruction: appends its bytes
    /// and returns the commit that applies the capacity change.
    pub fn encode_set_dynamic_table_capacity(&self, encoded: &mut Vec<u8>, capacity: usize) -> (r:
        Result<Commit, QpackError>)
        ensures
            match r {
                Ok(c) => {
                    &&& capacity <= u32::MAX
                    &&& final(encoded)@ == old(encoded)@ + crate::wire::set_capacity_bytes(
                        capacity as nat,
                    )
                    &&& (c matches Commit::TableOps { ops, sent } && !sent && ops@.len() == 1
                        && (ops@[0] matches TableOp::SetCapacity { capacity: c2 } && c2
                        == capacity))
                },
                Err(e) => {
                    &&& e == QpackError::EncoderStreamError
                    &&& capacity > u32::MAX
                    &&& final(encoded)@ == old(encoded)@
                },
            },
    {
        match Encoder::encode_set_dynamic_table_capacity(encoded, capacity) {
            Ok(()) => (),
            Err(e) => {
                return Err(e);
            },
        }
        let mut ops: Vec<TableOp> = Vec::new();
        ops.push(TableOp::SetCapacity { capacity });
        Ok(Commit::TableOps { ops, sent: false })
    }

    /// Plans a Section Acknowledgment for `stream_id` on the decoder
    /// stream.
    pub fn encode_section_ackowledgment(&self, encoded: &mut Vec<u8>, stream_id: u16) -> (r:
        Result<Commit, QpackError>)
        ensures
            r is Ok,
            final(encoded)@ == old(encoded)@ + crate::wire::section_ack_bytes(stream_id as nat),
            (r->Ok_0 matches Commit::SectionAck { stream_id: s2 } && s2 == stream_id),
    {
        let _ = Decoder::encode_section_ackowledgment(encoded, stream_id);
        Ok(Commit::SectionAck { stream_id })
    }

    /// Plans a Stream Cancellation for `stream_id` on the decoder stream.
    pub fn encode_stream_cancellation(&self, encoded: &mut Vec<u8>, stream_id: u16) -> (r: Result<
        Commit,
        QpackError,
    >)
        ensures
            r is Ok,
            final(encoded)@ == old(encoded)@ + crate::wire::stream_cancel_bytes(
                stream_id as nat,
            ),
            (r->Ok_0 matches Commit::StreamCancel { stream_id: s2 } && s2 == stream_id),
    {
        let _ = Decoder::encode_stream_cancellation(encoded, stream_id);
        Ok(Commit::StreamCancel { stream_id })
    }

    /// Plans an Insert Count Increment carrying the gap between this
    /// peer's insert count and what it has acknowledged so far.
    pub fn encode_insert_count_increment(&self, encoded: &mut Vec<u8>) -> (r: Result<
        Commit,
        QpackError,
    >)
        requires
            self.wf(),
        ensures
            match r {
                Ok(c) => {
                    &&& final(encoded)@ == old(encoded)@
                        + crate::wire::insert_count_increment_bytes(
                        (self.table.dynamic_table.insert_count
                            - self.table.dynamic_table.known_received_count) as nat,
                    )
                    &&& (c matches Commit::InsertCountIncrement { increment } && increment
                        == self.table.dynamic_table.insert_count
                        - self.table.dynamic_table.known_received_count)
                },
                Err(e) => {
                    &&& e == QpackError::DecoderStreamError
                    &&& final(encoded)@ == old(encoded)@
                },
            },
    {
        let increment = self.table.get_insert_count()
            - self.table.dynamic_table.known_received_count;
        match Decoder::encode_insert_count_increment(encoded, increment) {
            Ok(()) => Ok(Commit::InsertCountIncrement { increment }),
            Err(e) => Err(e),
        }
    }

    /// The prefix metadata for a block with the given find results: the
    /// required insert count, whether the post-base form is used, and the
    /// base. The post-base form is chosen when the referenced indices sit
    /// in the lower half of the current entries.
    fn get_prefix_meta_data(&self, frs: &Vec<(bool, bool, usize)>) -> (r: (usize, bool, usize))
        requires
            self.wf(),
            forall|i: int|
                0 <= i < frs@.len() && dyn_ref(#[trigger] frs@[i]) ==> frs@[i].2
                    < self.table.dynamic_table.insert_count,
        ensures
            meta_ok(frs@, r.0, r.1, r.2),
            r.0 <= self.table.dynamic_table.insert_count,
            r.1 ==> r.2 < r.0,
            !r.1 ==> r.2 == r.0,
    {
        let mut min_abs: usize = usize::MAX;
        let mut max_abs: usize = 0;
        let mut any = false;
        let mut i: usize = 0;
        while i < frs.len()
            invariant
                self.wf(),
                i <= frs@.len(),
                forall|j: int|
                    0 <= j < frs@.len() && dyn_ref(#[trigger] frs@[j]) ==> frs@[j].2
                        < self.table.dynamic_table.insert_count,
                any == exists|j: int| 0 <= j < i && dyn_ref(#[trigger] frs@[j]),
                any ==> exists|j: int|
                    0 <= j < i && dyn_ref(#[trigger] frs@[j]) && frs@[j].2 == max_abs,
                any ==> exists|j: int|
                    0 <= j < i && dyn_ref(#[trigger] frs@[j]) && frs@[j].2 == min_abs,
                any ==> forall|j: int|
                    0 <= j < i && dyn_ref(#[trigger] frs@[j]) ==> min_abs <= frs@[j].2
                        <= max_abs,
            decreases frs@.len() - i,
        {
            let (both, on_static, idx) = frs[i];
            if !on_static && idx != usize::MAX {
                if !any {
                    min_abs = idx;
                    max_abs = idx;
                    any = true;
                } else {
                    if idx < min_abs {
                        min_abs = idx;
                    }
                    if idx > max_abs {
                        max_abs = idx;
                    }
                }
            }
            i = i + 1;
        }
        if !any {
            return (0, false, 0);
        }
        let required_insert_count = max_abs + 1;
        // The midpoint heuristic works on positions within the current
        // entries rather than absolute indices.
        let entry_len = self.table.get_dynamic_table_entry_len();
        let evicted = self.table.get_insert_count() - entry_len;
        let post_base = if min_abs >= evicted && max_abs >= evicted {
            ((min_abs - evicted) as u128 + (max_abs - evicted) as u128) / 2 < (entry_len
                / 2) as u128
        } else {
            false
        };
        if post_base {
            (required_insert_count, true, min_abs)
        } else {
            (required_insert_count, false, required_insert_count)
        }
    }
}

/// The encoder-stream instruction bytes that insert one field, given its
/// find result: a Duplicate for an exact dynamic match, an Insert With Name
/// Reference for a name match, an Insert With Literal Name otherwise.
pub open spec fn insert_instr_bytes(t: Table, h: Header, fr: (bool, bool, usize)) -> Seq<u8> {
    let (both, on_static, idx) = fr;
    if both && !on_static {
        crate::wire::duplicate_bytes((t.dynamic_table.insert_count - 1 - idx) as nat)
    } else if idx != usize::MAX {
        crate::wire::insert_refer_name_bytes(
            on_static,
            if on_static {
                idx as nat
            } else {
                (t.dynamic_table.insert_count - 1 - idx) as nat
            },
            h.value_bytes(),
            h.value.huffman,
        )
    } else {
        crate::wire::insert_both_literal_bytes(
            h.name_bytes(),
            h.name.huffman,
            h.value_bytes(),
            h.value.huffman,
        )
    }
}

/// The concatenated insertion instructions for a list of fields.
pub open spec fn insert_instrs_bytes(
    t: Table,
    hs: Seq<Header>,
    frs: Seq<(bool, bool, usize)>,
) -> Seq<u8>
    decreases hs.len(),
{
    if hs.len() == 0 || frs.len() == 0 {
        Seq::empty()
    } else {
        insert_instr_bytes(t, hs[0], frs[0]) + insert_instrs_bytes(t, hs.skip(1), frs.skip(1))
    }
}

/// Appending one field appends its instruction bytes.
proof fn lemma_insert_instrs_push(
    t: Table,
    hs: Seq<Header>,
    frs: Seq<(bool, bool, usize)>,
    h: Header,
    fr: (bool, bool, usize),
)
    requires
        hs.len() == frs.len(),
    ensures
        insert_instrs_bytes(t, hs.push(h), frs.push(fr)) == insert_instrs_bytes(t, hs, frs)
            + insert_instr_bytes(t, h, fr),
    decreases hs.len(),
{
    if hs.len() == 0 {
        assert(hs.push(h)[0] == h);
        assert(frs.push(fr)[0] == fr);
        assert(hs.push(h).skip(1) =~= Seq::<Header>::empty());
        assert(frs.push(fr).skip(1) =~= Seq::<(bool, bool, usize)>::empty());
        assert(insert_instrs_bytes(t, Seq::<Header>::empty(), Seq::<(bool, bool, usize)>::empty())
            == Seq::<u8>::empty());
        assert(insert_instrs_bytes(t, hs.push(h), frs.push(fr)) =~= insert_instrs_bytes(t, hs, frs)
            + insert_instr_bytes(t, h, fr));
    } else {
        assert(hs.push(h)[0] == hs[0]);
        assert(frs.push(fr)[0] == frs[0]);
        assert(hs.push(h).skip(1) =~= hs.skip(1).push(h));
        assert(frs.push(fr).skip(1) =~= frs.skip(1).push(fr));
        lemma_insert_instrs_push(t, hs.skip(1), frs.skip(1), h, fr);
        assert(insert_instrs_bytes(t, hs.push(h), frs.push(fr)) =~= insert_instrs_bytes(t, hs, frs)
            + insert_instr_bytes(t, h, fr));
    }
}

/// Whether the insertion instruction chosen for a field, given its find
/// result, fits the wire's 32-bit integers.
pub open spec fn insert_instr_fits(t: Table, h: Header, fr: (bool, bool, usize)) -> bool {
    let (both, on_static, idx) = fr;
    if both && !on_static {
        t.dynamic_table.insert_count - 1 - idx <= u32::MAX
    } else if idx != usize::MAX {
        &&& (if on_static {
            idx as int
        } else {
            t.dynamic_table.insert_count - 1 - idx
        }) <= u32::MAX
        &&& crate::wire::str_fits(h.value_bytes(), h.value.huffman)
    } else {
        &&& crate::wire::str_fits(h.name_bytes(), h.name.huffman)
        &&& crate::wire::str_fits(h.value_bytes(), h.value.huffman)
    }
}

/// Whether the field-line representation chosen for a field, given its find
/// result and the block's shape, fits the wire's 32-bit integers.
pub open spec fn line_fits(h: Header, fr: (bool, bool, usize), pb: bool, base: usize) -> bool {
    let (both, on_static, idx) = fr;
    if both && !h.sensitive {
        if on_static {
            true
        } else if pb {
            idx - base <= u32::MAX
        } else {
            base - idx - 1 <= u32::MAX
        }
    } else if idx != usize::MAX {
        &&& crate::wire::str_fits(h.value_bytes(), h.value.huffman)
        &&& (if on_static {
            true
        } else if pb {
            idx - base <= u32::MAX
        } else {
            base - idx - 1 <= u32::MAX
        })
    } else {
        &&& crate::wire::str_fits(h.name_bytes(), h.name.huffman)
        &&& crate::wire::str_fits(h.value_bytes(), h.value.huffman)
    }
}

/// Whether a parsed encoder-stream instruction's name reference resolves
/// against this peer's tables.
pub open spec fn enc_instr_resolvable(t: Table, m: crate::wire::EncInstrModel) -> bool {
    match m {
        crate::wire::EncInstrModel::SetCapacity { cap } => true,
        crate::wire::EncInstrModel::InsertReferName { on_static, name_idx, value, huffman } => if on_static {
            name_idx < 99
        } else {
            name_idx < t.dynamic_table.insert_count && t.dynamic_table.valid_abs(
                t.dynamic_table.insert_count - 1 - name_idx,
            )
        },
        crate::wire::EncInstrModel::InsertBothLiteral { name, name_huffman, value, value_huffman } => true,
        crate::wire::EncInstrModel::Duplicate { idx } => idx < t.dynamic_table.insert_count
            && t.dynamic_table.valid_abs(t.dynamic_table.insert_count - 1 - idx),
    }
}

/// Whether a parsed decoder-stream instruction passes this peer's
/// validation: an acknowledgement must name a stream with a pending
/// section, and an increment must be nonzero and stay within what this
/// peer has sent.
pub open spec fn dec_instr_acceptable(e: Encoder, t: DynamicTable, m: crate::wire::DecInstrModel) -> bool {
    match m {
        crate::wire::DecInstrModel::SectionAck { stream_id } => crate::wire::has_sid(
            e.pending_sections@,
            stream_id as u16,
        ),
        crate::wire::DecInstrModel::StreamCancel { stream_id } => true,
        crate::wire::DecInstrModel::InsertCountIncrement { increment } => increment >= 1
            && t.known_received_count + increment <= e.known_sending_count,
    }
}

/// In a walk of the encoder stream, an instruction that parses but does not
/// resolve leaves the whole wire either unparsable or holding an
/// unresolvable instruction.
proof fn lemma_enc_walk_unresolvable(
    wire: Seq<u8>,
    idx: int,
    ms: Seq<crate::wire::EncInstrModel>,
    t: Table,
)
    requires
        spec_enc_instrs(wire) == (match spec_enc_instrs(wire.skip(idx)) {
            Some(rest) => Some(ms + rest),
            None => None::<Seq<crate::wire::EncInstrModel>>,
        }),
        0 <= idx <= wire.len(),
        crate::wire::spec_enc_instr(wire.skip(idx)) is Some,
        1 <= crate::wire::spec_enc_instr(wire.skip(idx))->Some_0.0 <= wire.len() - idx,
        !enc_instr_resolvable(t, crate::wire::spec_enc_instr(wire.skip(idx))->Some_0.1),
    ensures
        spec_enc_instrs(wire) is None || exists|ms2: Seq<crate::wire::EncInstrModel>, i: int|
            #![trigger ms2[i]]
            spec_enc_instrs(wire) == Some(ms2) && 0 <= i < ms2.len() && !enc_instr_resolvable(
                t,
                ms2[i],
            ),
{
    let sub = wire.skip(idx);
    let lm = crate::wire::spec_enc_instr(sub)->Some_0;
    match spec_enc_instrs(sub.skip(lm.0)) {
        Some(rest) => {
            assert(spec_enc_instrs(sub) == Some(seq![lm.1] + rest));
            let ms2 = ms + (seq![lm.1] + rest);
            assert(spec_enc_instrs(wire) == Some(ms2));
            assert(ms2[ms.len() as int] == lm.1);
            assert(0 <= (ms.len() as int) && (ms.len() as int) < ms2.len()
                && !enc_instr_resolvable(t, ms2[ms.len() as int]));
        },
        None => {
            assert(spec_enc_instrs(sub) is None);
        },
    }
}

/// In a walk of the decoder stream, an instruction that parses but fails
/// validation leaves the whole wire either unparsable or holding an
/// unacceptable instruction.
proof fn lemma_dec_walk_unacceptable(
    wire: Seq<u8>,
    idx: int,
    ms: Seq<crate::wire::DecInstrModel>,
    e: Encoder,
    t: DynamicTable,
)
    requires
        spec_dec_instrs(wire) == (match spec_dec_instrs(wire.skip(idx)) {
            Some(rest) => Some(ms + rest),
            None => None::<Seq<crate::wire::DecInstrModel>>,
        }),
        0 <= idx <= wire.len(),
        crate::wire::spec_dec_instr(wire.skip(idx)) is Some,
        1 <= crate::wire::spec_dec_instr(wire.skip(idx))->Some_0.0 <= wire.len() - idx,
        !dec_instr_acceptable(e, t, crate::wire::spec_dec_instr(wire.skip(idx))->Some_0.1),
    ensures
        spec_dec_instrs(wire) is None || exists|ms2: Seq<crate::wire::DecInstrModel>, i: int|
            #![trigger ms2[i]]
            spec_dec_instrs(wire) == Some(ms2) && 0 <= i < ms2.len() && !dec_instr_acceptable(
                e,
                t,
                ms2[i],
            ),
{
    let sub = wire.skip(idx);
    let lm = crate::wire::spec_dec_instr(sub)->Some_0;
    match spec_dec_instrs(sub.skip(lm.0)) {
        Some(rest) => {
            assert(spec_dec_instrs(sub) == Some(seq![lm.1] + rest));
            let ms2 = ms + (seq![lm.1] + rest);
            assert(spec_dec_instrs(wire) == Some(ms2));
            assert(ms2[ms.len() as int] == lm.1);
            assert(0 <= (ms.len() as int) && (ms.len() as int) < ms2.len()
                && !dec_instr_acceptable(e, t, ms2[ms.len() as int]));
        },
        None => {
            assert(spec_dec_instrs(sub) is None);
        },
    }
}

/// The planned table operation matches the field and its find result: the
/// stored name comes from the matched entry, the static table, or the
/// field itself.
pub open spec fn insert_op_ok(t: Table, h: Header, fr: (bool, bool, usize), op: TableOp) -> bool {
    let (both, on_static, idx) = fr;
    op matches TableOp::Insert { name, value } && {
        if both && !on_static {
            &&& name@ == t.dynamic_table.entry_at(idx as int).name@
            &&& value@ == t.dynamic_table.entry_at(idx as int).value@
        } else if idx != usize::MAX {
            &&& (if on_static {
                name@ == crate::table::static_pair(idx as int).0
            } else {
                name@ == t.dynamic_table.entry_at(idx as int).name@
            })
            &&& value@ == h.value_bytes()
        } else {
            &&& name@ == h.name_bytes()
            &&& value@ == h.value_bytes()
        }
    }
}

impl Qpack {
    /// Plans the insertion of a list of fields on the encoder stream: for
    /// each field, a Duplicate when the dynamic table already holds it, an
    /// Insert With Name Reference when either table holds its name, and an
    /// Insert With Literal Name otherwise. The commit applies the
    /// insertions to the table and advances the known sending count.
    pub fn encode_insert_headers(&self, encoded: &mut Vec<u8>, headers: Vec<Header>) -> (r: Result<
        Commit,
        QpackError,
    >)
        requires
            self.wf(),
        ensures
            match r {
                Ok(c) => exists|frs: Seq<(bool, bool, usize)>|
                    {
                        &&& frs.len() == headers@.len()
                        &&& (forall|i: int|
                            0 <= i < frs.len() ==> crate::table::is_find_result(
                                self.table,
                                headers@[i],
                                #[trigger] frs[i],
                            ))
                        &&& final(encoded)@ == old(encoded)@ + insert_instrs_bytes(
                            self.table,
                            headers@,
                            frs,
                        )
                        &&& (c matches Commit::TableOps { ops, sent } && sent && ops@.len()
                            == headers@.len() && (forall|i: int|
                            0 <= i < ops@.len() ==> insert_op_ok(
                                self.table,
                                headers@[i],
                                frs[i],
                                #[trigger] ops@[i],
                            )))
                    },
                Err(e) => {
                    &&& e == QpackError::EncoderStreamError
                    &&& exists|frs: Seq<(bool, bool, usize)>, i: int|
                        #![trigger frs[i]]
                        frs.len() == headers@.len() && (forall|j: int|
                            0 <= j < frs.len() ==> crate::table::is_find_result(
                                self.table,
                                headers@[j],
                                #[trigger] frs[j],
                            )) && 0 <= i < headers@.len() && !insert_instr_fits(
                            self.table,
                            headers@[i],
                            frs[i],
                        )
                },
            },
    {
        let frs = self.table.find_headers(&headers);
        let mut ops: Vec<TableOp> = Vec::new();
        let ghost orig = encoded@;
        let mut i: usize = 0;
        proof {
            assert(headers@.take(0) =~= Seq::<Header>::empty());
            assert(frs@.take(0) =~= Seq::<(bool, bool, usize)>::empty());
        }
        while i < headers.len()
            invariant
                self.wf(),
                i <= headers@.len(),
                frs@.len() == headers@.len(),
                forall|j: int|
                    0 <= j < frs@.len() ==> crate::table::is_find_result(
                        self.table,
                        headers@[j],
                        #[trigger] frs@[j],
                    ),
                ops@.len() == i,
                forall|j: int|
                    0 <= j < i ==> insert_op_ok(
                        self.table,
                        headers@[j],
                        frs@[j],
                        #[trigger] ops@[j],
                    ),
                encoded@ == orig + insert_instrs_bytes(
                    self.table,
                    headers@.take(i as int),
                    frs@.take(i as int),
                ),
            decreases headers@.len() - i,
        {
            let ghost pre = encoded@;
            let (both, on_static, idx) = frs[i];
            let header = &headers[i];
            if both && !on_static {
                // An exact dynamic match: duplicate it.
                let rel = self.table.get_insert_count() - 1 - idx;
                match Encoder::encode_duplicate(encoded, rel) {
                    Ok(()) => (),
                    Err(e) => {
                        proof {
                            assert(!insert_instr_fits(
                                self.table,
                                headers@[i as int],
                                frs@[i as int],
                            ));
                        }
                        return Err(e);
                    },
                }
                let entry = match self.table.dynamic_table.get_entry(idx) {
                    Ok(e) => e,
                    Err(e) => {
                        // An exact dynamic match always names a live entry.
                        proof {
                            assert(false);
                        }
                        return Err(QpackError::EncoderStreamError);
                    },
                };
                ops.push(TableOp::Insert { name: entry.name, value: entry.value });
            } else if idx != usize::MAX {
                // A name match: insert with a name reference.
                let rel = if on_static {
                    idx
                } else {
                    self.table.get_insert_count() - 1 - idx
                };
                match Encoder::encode_insert_refer_name(encoded, on_static, rel, &header.value) {
                    Ok(()) => (),
                    Err(e) => {
                        proof {
                            assert(!insert_instr_fits(
                                self.table,
                                headers@[i as int],
                                frs@[i as int],
                            ));
                        }
                        return Err(e);
                    },
                }
                let name = if on_static {
                    let sh = match self.table.get_header_from_static(idx) {
                        Ok(h) => h,
                        Err(e) => {
                            // A static name match always lies in the table.
                            proof {
                                assert(false);
                            }
                            return Err(QpackError::EncoderStreamError);
                        },
                    };
                    sh.name.value
                } else {
                    let entry = match self.table.dynamic_table.get_entry(idx) {
                        Ok(e) => e,
                        Err(e) => {
                            // A dynamic name match always names a live entry.
                            proof {
                                assert(false);
                            }
                            return Err(QpackError::EncoderStreamError);
                        },
                    };
                    entry.name
                };
                ops.push(
                    TableOp::Insert {
                        name,
                        value: crate::dynamic_table::copy_bytes(&header.value.value),
                    },
                );
            } else {
                // No match anywhere: insert with a literal name.
                match Encoder::encode_insert_both_literal(encoded, header) {
                    Ok(()) => (),
                    Err(e) => {
                        proof {
                            assert(!insert_instr_fits(
                                self.table,
                                headers@[i as int],
                                frs@[i as int],
                            ));
                        }
                        return Err(e);
                    },
                }
                ops.push(
                    TableOp::Insert {
                        name: crate::dynamic_table::copy_bytes(&header.name.value),
                        value: crate::dynamic_table::copy_bytes(&header.value.value),
                    },
                );
            }
            proof {
                assert(headers@.take(i as int + 1) =~= headers@.take(i as int).push(
                    headers@[i as int],
                ));
                assert(frs@.take(i as int + 1) =~= frs@.take(i as int).push(frs@[i as int]));
                lemma_insert_instrs_push(
                    self.table,
                    headers@.take(i as int),
                    frs@.take(i as int),
                    headers@[i as int],
                    frs@[i as int],
                );
                assert(encoded@ =~= orig + insert_instrs_bytes(
                    self.table,
                    headers@.take(i as int + 1),
                    frs@.take(i as int + 1),
                ));
            }
            i = i + 1;
        }
        proof {
            assert(headers@.take(headers@.len() as int) =~= headers@);
            assert(frs@.take(frs@.len() as int) =~= frs@);
        }
        Ok(Commit::TableOps { ops, sent: true })
    }
}

/// The field-line bytes chosen for one field, given its find result and
/// the block's shape: an Indexed form for an exact match on an insensitive
/// field, a literal with name reference for a name match, a fully literal
/// form otherwise. A sensitive field is never sent as an Indexed line.
pub open spec fn line_bytes(h: Header, fr: (bool, bool, usize), pb: bool, base: usize) -> Seq<
    u8,
> {
    let (both, on_static, idx) = fr;
    if both && !h.sensitive {
        if on_static {
            crate::wire::indexed_bytes(idx as nat, true)
        } else if pb {
            crate::wire::indexed_post_base_bytes((idx - base) as nat)
        } else {
            crate::wire::indexed_bytes((base - idx - 1) as nat, false)
        }
    } else if idx != usize::MAX {
        if on_static {
            crate::wire::refer_name_bytes(
                idx as nat,
                true,
                h.sensitive,
                h.value_bytes(),
                h.value.huffman,
            )
        } else if pb {
            crate::wire::refer_name_post_base_bytes(
                (idx - base) as nat,
                h.sensitive,
                h.value_bytes(),
                h.value.huffman,
            )
        } else {
            crate::wire::refer_name_bytes(
                (base - idx - 1) as nat,
                false,
                h.sensitive,
                h.value_bytes(),
                h.value.huffman,
            )
        }
    } else {
        crate::wire::both_literal_bytes(
            h.name_bytes(),
            h.name.huffman,
            h.sensitive,
            h.value_bytes(),
            h.value.huffman,
        )
    }
}

/// The concatenated field lines of a block.
pub open spec fn lines_bytes(
    hs: Seq<Header>,
    frs: Seq<(bool, bool, usize)>,
    pb: bool,
    base: usize,
) -> Seq<u8>
    decreases hs.len(),
{
    if hs.len() == 0 || frs.len() == 0 {
        Seq::empty()
    } else {
        line_bytes(hs[0], frs[0], pb, base) + lines_bytes(hs.skip(1), frs.skip(1), pb, base)
    }
}

/// Appending one field appends its line bytes.
proof fn lemma_lines_bytes_push(
    hs: Seq<Header>,
    frs: Seq<(bool, bool, usize)>,
    h: Header,
    fr: (bool, bool, usize),
    pb: bool,
    base: usize,
)
    requires
        hs.len() == frs.len(),
    ensures
        lines_bytes(hs.push(h), frs.push(fr), pb, base) == lines_bytes(hs, frs, pb, base)
            + line_bytes(h, fr, pb, base),
    decreases hs.len(),
{
    if hs.len() == 0 {
        assert(hs.push(h)[0] == h);
        assert(frs.push(fr)[0] == fr);
        assert(hs.push(h).skip(1) =~= Seq::<Header>::empty());
        assert(frs.push(fr).skip(1) =~= Seq::<(bool, bool, usize)>::empty());
        assert(lines_bytes(Seq::<Header>::empty(), Seq::<(bool, bool, usize)>::empty(), pb, base)
            == Seq::<u8>::empty());
        assert(lines_bytes(hs.push(h), frs.push(fr), pb, base) =~= lines_bytes(hs, frs, pb, base)
            + line_bytes(h, fr, pb, base));
    } else {
        assert(hs.push(h)[0] == hs[0]);
        assert(frs.push(fr)[0] == frs[0]);
        assert(hs.push(h).skip(1) =~= hs.skip(1).push(h));
        assert(frs.push(fr).skip(1) =~= frs.skip(1).push(fr));
        lemma_lines_bytes_push(hs.skip(1), frs.skip(1), h, fr, pb, base);
        assert(lines_bytes(hs.push(h), frs.push(fr), pb, base) =~= lines_bytes(hs, frs, pb, base)
            + line_bytes(h, fr, pb, base));
    }
}

impl Qpack {
    /// Plans a field block for `headers` on stream `stream_id`: the prefix,
    /// then one representation per field. The commit takes one table
    /// reference per dynamic index used and records the pending section.
    #[verifier::rlimit(100)]
    pub fn encode_headers(
        &self,
        encoded: &mut Vec<u8>,
        headers: Vec<Header>,
        stream_id: u16,
    ) -> (r: Result<Commit, QpackError>)
        requires
            self.wf(),
        ensures
            match r {
                Ok(c) => exists|frs: Seq<(bool, bool, usize)>, ric: usize, pb: bool, base: usize|
                    {
                        &&& frs.len() == headers@.len()
                        &&& (forall|i: int|
                            0 <= i < frs.len() ==> crate::table::is_find_result(
                                self.table,
                                headers@[i],
                                #[trigger] frs[i],
                            ))
                        &&& meta_ok(frs, ric, pb, base)
                        &&& ric <= self.table.dynamic_table.insert_count
                        &&& final(encoded)@ == old(encoded)@ + crate::wire::prefix_bytes(
                            crate::wire::spec_eic(
                                ric as nat,
                                (self.table.dynamic_table.max_capacity as int / 32) as nat,
                            ),
                            pb,
                            (if pb {
                                ric - base - 1
                            } else {
                                0
                            }) as nat,
                        ) + lines_bytes(headers@, frs, pb, base)
                        &&& (c matches Commit::Section {
                            stream_id: s2,
                            required_insert_count,
                            refs,
                        } && s2 == stream_id && required_insert_count == ric && refs@
                            == dyn_refs(frs))
                    },
                Err(e) => {
                    &&& e == QpackError::EncoderStreamError
                    &&& exists|frs: Seq<(bool, bool, usize)>, ric: usize, pb: bool, base: usize|
                        #![trigger meta_ok(frs, ric, pb, base)]
                        frs.len() == headers@.len() && (forall|j: int|
                            0 <= j < frs.len() ==> crate::table::is_find_result(
                                self.table,
                                headers@[j],
                                #[trigger] frs[j],
                            )) && meta_ok(frs, ric, pb, base) && ric
                            <= self.table.dynamic_table.insert_count && {
                            ||| (ric > 0 && self.table.dynamic_table.max_capacity as int / 32
                                == 0)
                            ||| crate::wire::spec_eic(
                                ric as nat,
                                (self.table.dynamic_table.max_capacity as int / 32) as nat,
                            ) > u32::MAX
                            ||| (pb && ric - base - 1 > u32::MAX)
                            ||| exists|i: int|
                                0 <= i < headers@.len() && !line_fits(
                                    headers@[i],
                                    #[trigger] frs[i],
                                    pb,
                                    base,
                                )
                        }
                },
            },
    {
        let frs = self.table.find_headers(&headers);
        let (required_insert_count, post_base, base) = self.get_prefix_meta_data(&frs);
        match Encoder::prefix(encoded, &self.table, required_insert_count, post_base, base) {
            Ok(()) => (),
            Err(e) => {
                proof {
                    if !post_base {
                        assert(base - required_insert_count == 0);
                    }
                    assert((required_insert_count > 0
                        && self.table.dynamic_table.max_capacity as int / 32 == 0)
                        || crate::wire::spec_eic(
                        required_insert_count as nat,
                        (self.table.dynamic_table.max_capacity as int / 32) as nat,
                    ) > u32::MAX || (post_base && required_insert_count - base - 1 > u32::MAX));
                }
                return Err(e);
            },
        }
        let ghost after_prefix = encoded@;
        let mut refs: Vec<usize> = Vec::new();
        let mut i: usize = 0;
        proof {
            assert(headers@.take(0) =~= Seq::<Header>::empty());
            assert(frs@.take(0) =~= Seq::<(bool, bool, usize)>::empty());
            assert(dyn_refs(Seq::<(bool, bool, usize)>::empty()) == Seq::<usize>::empty());
        }
        while i < headers.len()
            invariant
                self.wf(),
                i <= headers@.len(),
                frs@.len() == headers@.len(),
                forall|j: int|
                    0 <= j < frs@.len() ==> crate::table::is_find_result(
                        self.table,
                        headers@[j],
                        #[trigger] frs@[j],
                    ),
                meta_ok(frs@, required_insert_count, post_base, base),
                required_insert_count <= self.table.dynamic_table.insert_count,
                post_base ==> base < required_insert_count,
                !post_base ==> base == required_insert_count,
                refs@ == dyn_refs(frs@.take(i as int)),
                encoded@ == after_prefix + lines_bytes(
                    headers@.take(i as int),
                    frs@.take(i as int),
                    post_base,
                    base,
                ),
            decreases headers@.len() - i,
        {
            let ghost pre = encoded@;
            let (both, on_static, idx) = frs[i];
            let header = &headers[i];
            if !on_static && idx != usize::MAX {
                refs.push(idx);
            }
            proof {
                lemma_dyn_refs_push(frs@.take(i as int), frs@[i as int]);
                assert(frs@.take(i as int + 1) =~= frs@.take(i as int).push(frs@[i as int]));
            }
            if both && !header.sensitive {
                if on_static {
                    match Encoder::encode_indexed(encoded, idx, true) {
                        Ok(()) => (),
                        Err(e) => {
                            proof {
                                assert(!line_fits(
                                    headers@[i as int],
                                    frs@[i as int],
                                    post_base,
                                    base,
                                ));
                            }
                            return Err(e);
                        },
                    }
                } else {
                    proof {
                        assert(dyn_ref(frs@[i as int]));
                    }
                    if post_base {
                        match Encoder::encode_indexed_post_base(encoded, idx - base) {
                            Ok(()) => (),
                            Err(e) => {
                                proof {
                                    assert(!line_fits(
                                        headers@[i as int],
                                        frs@[i as int],
                                        post_base,
                                        base,
                                    ));
                                }
                                return Err(e);
                            },
                        }
                    } else {
                        match Encoder::encode_indexed(encoded, base - idx - 1, false) {
                            Ok(()) => (),
                            Err(e) => {
                                proof {
                                    assert(!line_fits(
                                        headers@[i as int],
                                        frs@[i as int],
                                        post_base,
                                        base,
                                    ));
                                }
                                return Err(e);
                            },
                        }
                    }
                }
            } else if idx != usize::MAX {
                if on_static {
                    match Encoder::encode_refer_name(encoded, idx, header, true) {
                        Ok(()) => (),
                        Err(e) => {
                            proof {
                                assert(!line_fits(
                                    headers@[i as int],
                                    frs@[i as int],
                                    post_base,
                                    base,
                                ));
                            }
                            return Err(e);
                        },
                    }
                } else {
                    proof {
                        assert(dyn_ref(frs@[i as int]));
                    }
                    if post_base {
                        match Encoder::encode_refer_name_post_base(encoded, idx - base, header) {
                            Ok(()) => (),
                            Err(e) => {
                                proof {
                                    assert(!line_fits(
                                        headers@[i as int],
                                        frs@[i as int],
                                        post_base,
                                        base,
                                    ));
                                }
                                return Err(e);
                            },
                        }
                    } else {
                        match Encoder::encode_refer_name(encoded, base - idx - 1, header, false) {
                            Ok(()) => (),
                            Err(e) => {
                                proof {
                                    assert(!line_fits(
                                        headers@[i as int],
                                        frs@[i as int],
                                        post_base,
                                        base,
                                    ));
                                }
                                return Err(e);
                            },
                        }
                    }
                }
            } else {
                match Encoder::encode_both_literal(encoded, header) {
                    Ok(()) => (),
                    Err(e) => {
                        proof {
                            assert(!line_fits(
                                headers@[i as int],
                                frs@[i as int],
                                post_base,
                                base,
                            ));
                        }
                        return Err(e);
                    },
                }
            }
            proof {
                assert(headers@.take(i as int + 1) =~= headers@.take(i as int).push(
                    headers@[i as int],
                ));
                lemma_lines_bytes_push(
                    headers@.take(i as int),
                    frs@.take(i as int),
                    headers@[i as int],
                    frs@[i as int],
                    post_base,
                    base,
                );
                assert(encoded@ =~= after_prefix + lines_bytes(
                    headers@.take(i as int + 1),
                    frs@.take(i as int + 1),
                    post_base,
                    base,
                ));
            }
            i = i + 1;
        }
        proof {
            assert(headers@.take(headers@.len() as int) =~= headers@);
            assert(frs@.take(frs@.len() as int) =~= frs@);
        }
        Ok(Commit::Section { stream_id, required_insert_count, refs })
    }
}

/// The encoder-stream instructions parsed from a whole wire buffer.
pub open spec fn spec_enc_instrs(bytes: Seq<u8>) -> Option<Seq<crate::wire::EncInstrModel>>
    decreases bytes.len(),
{
    if bytes.len() == 0 {
        Some(Seq::empty())
    } else {
        match crate::wire::spec_enc_instr(bytes) {
            Some((l, m)) => if l < 1 || l > bytes.len() {
                None
            } else {
                match spec_enc_instrs(bytes.skip(l)) {
                    Some(rest) => Some(seq![m] + rest),
                    None => None,
                }
            },
            None => None,
        }
    }
}

/// The decoder-stream instructions parsed from a whole wire buffer.
pub open spec fn spec_dec_instrs(bytes: Seq<u8>) -> Option<Seq<crate::wire::DecInstrModel>>
    decreases bytes.len(),
{
    if bytes.len() == 0 {
        Some(Seq::empty())
    } else {
        match crate::wire::spec_dec_instr(bytes) {
            Some((l, m)) => if l < 1 || l > bytes.len() {
                None
            } else {
                match spec_dec_instrs(bytes.skip(l)) {
                    Some(rest) => Some(seq![m] + rest),
                    None => None,
                }
            },
            None => None,
        }
    }
}

/// The field lines parsed from the rest of a block, resolved against the
/// tables: `(name, value, sensitive, referenced_dynamic)` per line.
pub open spec fn spec_lines(t: Table, base: int, ric: nat, bytes: Seq<u8>) -> Option<
    Seq<(Seq<u8>, Seq<u8>, bool, bool)>,
>
    decreases bytes.len(),
{
    if bytes.len() == 0 {
        Some(Seq::empty())
    } else {
        match crate::wire::spec_line(t, base, ric, bytes) {
            Some((l, name, value, sensitive, refd)) => if l < 1 || l > bytes.len() {
                None
            } else {
                match spec_lines(t, base, ric, bytes.skip(l)) {
                    Some(rest) => Some(seq![(name, value, sensitive, refd)] + rest),
                    None => None,
                }
            },
            None => None,
        }
    }
}

/// A parsed encoder-stream instruction resolves, against this peer's
/// tables, to the planned operation: referenced names are read from the
/// table the instruction points into.
pub open spec fn enc_instr_resolves(
    t: Table,
    m: crate::wire::EncInstrModel,
    op: TableOp,
) -> bool {
    match m {
        crate::wire::EncInstrModel::SetCapacity { cap } => (op matches TableOp::SetCapacity {
            capacity,
        } && capacity as nat == cap),
        crate::wire::EncInstrModel::InsertReferName { on_static, name_idx, value, huffman } => (op
            matches TableOp::Insert { name, value: v } && v@ == value && (if on_static {
            name_idx < 99 && name@ == crate::table::static_pair(name_idx as int).0
        } else {
            &&& name_idx < t.dynamic_table.insert_count
            &&& t.dynamic_table.valid_abs(t.dynamic_table.insert_count - 1 - name_idx)
            &&& name@ == t.dynamic_table.entry_at(
                t.dynamic_table.insert_count - 1 - name_idx,
            ).name@
        })),
        crate::wire::EncInstrModel::InsertBothLiteral { name, name_huffman, value, value_huffman }
            => (op matches TableOp::Insert { name: n, value: v } && n@ == name && v@ == value),
        crate::wire::EncInstrModel::Duplicate { idx } => (op matches TableOp::Insert {
            name,
            value,
        } && {
            &&& idx < t.dynamic_table.insert_count
            &&& t.dynamic_table.valid_abs(t.dynamic_table.insert_count - 1 - idx)
            &&& name@ == t.dynamic_table.entry_at(t.dynamic_table.insert_count - 1 - idx).name@
            &&& value@ == t.dynamic_table.entry_at(
                t.dynamic_table.insert_count - 1 - idx,
            ).value@
        }),
    }
}

/// A parsed decoder-stream instruction and its planned form carry the same
/// data.
pub open spec fn dec_instr_matches(m: crate::wire::DecInstrModel, i: DecInstr) -> bool {
    match m {
        crate::wire::DecInstrModel::SectionAck { stream_id } => (i matches DecInstr::SectionAck {
            stream_id: s,
        } && s as nat == stream_id),
        crate::wire::DecInstrModel::StreamCancel { stream_id } => (i
            matches DecInstr::StreamCancel { stream_id: s } && s as nat == stream_id),
        crate::wire::DecInstrModel::InsertCountIncrement { increment } => (i
            matches DecInstr::InsertCountIncrement { increment: n } && n as nat == increment),
    }
}

impl Qpack {
    /// Parses a whole encoder-stream buffer into the table mutations it
    /// carries, resolving name references against the current tables. The
    /// commit applies the mutations in order.
    #[verifier::rlimit(100)]
    #[verifier::spinoff_prover]
    pub fn decode_encoder_instruction(&self, wire: &Vec<u8>) -> (r: Result<Commit, QpackError>)
        requires
            self.wf(),
        ensures
            match r {
                Ok(c) => exists|ms: Seq<crate::wire::EncInstrModel>|
                    {
                        &&& spec_enc_instrs(wire@) == Some(ms)
                        &&& (c matches Commit::TableOps { ops, sent } && !sent && ops@.len()
                            == ms.len() && (forall|i: int|
                            0 <= i < ms.len() ==> enc_instr_resolves(
                                self.table,
                                ms[i],
                                #[trigger] ops@[i],
                            )))
                    },
                Err(e) => {
                    &&& e == QpackError::DecompressionFailed
                    &&& {
                        ||| spec_enc_instrs(wire@) is None
                        ||| exists|ms2: Seq<crate::wire::EncInstrModel>, i: int|
                            #![trigger ms2[i]]
                            spec_enc_instrs(wire@) == Some(ms2) && 0 <= i < ms2.len()
                                && !enc_instr_resolvable(self.table, ms2[i])
                    }
                },
            },
    {
        let wlen = wire.len();
        let mut ops: Vec<TableOp> = Vec::new();
        let ghost mut ms: Seq<crate::wire::EncInstrModel> = Seq::empty();
        let mut idx: usize = 0;
        proof {
            assert(wire@.skip(0) =~= wire@);
        }
        while idx < wlen
            invariant
                self.wf(),
                wlen == wire@.len(),
                idx <= wlen,
                ops@.len() == ms.len(),
                forall|j: int|
                    0 <= j < ms.len() ==> enc_instr_resolves(self.table, ms[j], #[trigger] ops@[j]),
                spec_enc_instrs(wire@) == match spec_enc_instrs(wire@.skip(idx as int)) {
                    Some(rest) => Some(ms + rest),
                    None => None::<Seq<crate::wire::EncInstrModel>>,
                },
            decreases wlen - idx,
        {
            let b = wire[idx];
            let ghost sub = wire@.skip(idx as int);
            let ghost pre_ms = ms;
            proof {
                assert(sub[0] == b);
                assert((b & 0x80 == 0x80 || b & 0x80 == 0) && (b & 0x40 == 0x40 || b & 0x40
                    == 0) && (b & 0x20 == 0x20 || b & 0x20 == 0)) by (bit_vector);
            }
            let step: usize;
            if b & 0x80 == 0x80 {
                let (len, (name_idx, value, on_static)) = match Decoder::decode_insert_refer_name(
                    wire,
                    idx,
                ) {
                    Ok(p) => p,
                    Err(e) => {
                        proof {
                            assert(spec_enc_instrs(sub) is None);
                        }
                        return Err(e);
                    },
                };
                let name = if on_static {
                    let sh = match self.table.get_header_from_static(name_idx) {
                        Ok(h) => h,
                        Err(e) => {
                            proof {
                                lemma_enc_walk_unresolvable(wire@, idx as int, ms, self.table);
                            }
                            return Err(e);
                        },
                    };
                    sh.name.value
                } else {
                    if name_idx >= self.table.get_insert_count() {
                        proof {
                            lemma_enc_walk_unresolvable(wire@, idx as int, ms, self.table);
                        }
                        return Err(QpackError::DecompressionFailed);
                    }
                    let abs = self.table.get_insert_count() - 1 - name_idx;
                    let entry = match self.table.dynamic_table.get_entry(abs) {
                        Ok(e) => e,
                        Err(e) => {
                            proof {
                                lemma_enc_walk_unresolvable(wire@, idx as int, ms, self.table);
                            }
                            return Err(e);
                        },
                    };
                    entry.name
                };
                ops.push(TableOp::Insert { name, value: value.value });
                proof {
                    ms = ms.push(crate::wire::spec_enc_instr(sub)->Some_0.1);
                }
                step = len;
            } else if b & 0x40 == 0x40 {
                let (len, header) = match Decoder::decode_insert_both_literal(wire, idx) {
                    Ok(p) => p,
                    Err(e) => {
                        proof {
                            assert(spec_enc_instrs(sub) is None);
                        }
                        return Err(e);
                    },
                };
                ops.push(TableOp::Insert { name: header.name.value, value: header.value.value });
                proof {
                    ms = ms.push(crate::wire::spec_enc_instr(sub)->Some_0.1);
                }
                step = len;
            } else if b & 0x20 == 0x20 {
                let (len, cap) = match Decoder::decode_dynamic_table_capacity(wire, idx) {
                    Ok(p) => p,
                    Err(e) => {
                        proof {
                            assert(spec_enc_instrs(sub) is None);
                        }
                        return Err(e);
                    },
                };
                ops.push(TableOp::SetCapacity { capacity: cap });
                proof {
                    ms = ms.push(crate::wire::spec_enc_instr(sub)->Some_0.1);
                }
                step = len;
            } else {
                let (len, rel) = match Decoder::decode_duplicate(wire, idx) {
                    Ok(p) => p,
                    Err(e) => {
                        proof {
                            assert(spec_enc_instrs(sub) is None);
                        }
                        return Err(e);
                    },
                };
                if rel >= self.table.get_insert_count() {
                    proof {
                        lemma_enc_walk_unresolvable(wire@, idx as int, ms, self.table);
                    }
                    return Err(QpackError::DecompressionFailed);
                }
                let abs = self.table.get_insert_count() - 1 - rel;
                let entry = match self.table.dynamic_table.get_entry(abs) {
                    Ok(e) => e,
                    Err(e) => {
                        proof {
                            lemma_enc_walk_unresolvable(wire@, idx as int, ms, self.table);
                        }
                        return Err(e);
                    },
                };
                ops.push(TableOp::Insert { name: entry.name, value: entry.value });
                proof {
                    ms = ms.push(crate::wire::spec_enc_instr(sub)->Some_0.1);
                }
                step = len;
            }
            proof {
                let lm = crate::wire::spec_enc_instr(sub)->Some_0;
                let l = lm.0;
                let m = lm.1;
                assert(step as int == l);
                assert(ms == pre_ms.push(m));
                assert(enc_instr_resolves(self.table, m, ops@.last()));
                assert(sub.skip(l) =~= wire@.skip(idx as int + step as int));
                match spec_enc_instrs(wire@.skip(idx as int + step as int)) {
                    Some(rest) => {
                        assert(spec_enc_instrs(sub) == Some(seq![m] + rest));
                        assert(pre_ms + (seq![m] + rest) =~= ms + rest);
                    },
                    None => {
                        assert(spec_enc_instrs(sub) is None);
                    },
                }
            }
            idx = idx + step;
        }
        proof {
            assert(wire@.skip(wlen as int).len() == 0);
            assert(spec_enc_instrs(wire@.skip(wlen as int)) == Some(
                Seq::<crate::wire::EncInstrModel>::empty(),
            ));
            assert(ms + Seq::<crate::wire::EncInstrModel>::empty() =~= ms);
        }
        Ok(Commit::TableOps { ops, sent: false })
    }
}

/// The outcome of decoding a field block: either the recovered fields, or
/// a suspension because the dynamic table has not caught up with the
/// block's required insert count.
#[derive(Debug)]
pub enum DecodedHeaders {
    Done { headers: Vec<Header>, referenced_dynamic: bool },
    Blocked { required_insert_count: usize },
}

impl Qpack {
    /// Parses a whole decoder-stream buffer into its instructions,
    /// validating each against the current state: an acknowledgement must
    /// name a stream with a pending section, and an increment must be
    /// nonzero and stay within what this peer has sent. The commit applies
    /// them in order.
    #[verifier::rlimit(100)]
    #[verifier::spinoff_prover]
    pub fn decode_decoder_instruction(&self, wire: &Vec<u8>) -> (r: Result<Commit, QpackError>)
        requires
            self.wf(),
        ensures
            match r {
                Ok(c) => exists|ms: Seq<crate::wire::DecInstrModel>|
                    {
                        &&& spec_dec_instrs(wire@) == Some(ms)
                        &&& (c matches Commit::DecoderInstrs { instrs } && instrs@.len()
                            == ms.len() && (forall|i: int|
                            0 <= i < ms.len() ==> dec_instr_matches(
                                ms[i],
                                #[trigger] instrs@[i],
                            )))
                    },
                Err(e) => {
                    &&& (e == QpackError::DecompressionFailed || e
                        == QpackError::DecoderStreamError)
                    &&& {
                        ||| spec_dec_instrs(wire@) is None
                        ||| exists|ms2: Seq<crate::wire::DecInstrModel>, i: int|
                            #![trigger ms2[i]]
                            spec_dec_instrs(wire@) == Some(ms2) && 0 <= i < ms2.len()
                                && !dec_instr_acceptable(
                                self.encoder,
                                self.table.dynamic_table,
                                ms2[i],
                            )
                    }
                },
            },
    {
        let wlen = wire.len();
        let mut instrs: Vec<DecInstr> = Vec::new();
        let ghost mut ms: Seq<crate::wire::DecInstrModel> = Seq::empty();
        let mut idx: usize = 0;
        proof {
            assert(wire@.skip(0) =~= wire@);
        }
        while idx < wlen
            invariant
                self.wf(),
                wlen == wire@.len(),
                idx <= wlen,
                instrs@.len() == ms.len(),
                forall|j: int|
                    0 <= j < ms.len() ==> dec_instr_matches(ms[j], #[trigger] instrs@[j]),
                spec_dec_instrs(wire@) == match spec_dec_instrs(wire@.skip(idx as int)) {
                    Some(rest) => Some(ms + rest),
                    None => None::<Seq<crate::wire::DecInstrModel>>,
                },
            decreases wlen - idx,
        {
            let b = wire[idx];
            let ghost sub = wire@.skip(idx as int);
            let ghost pre_ms = ms;
            proof {
                assert(sub[0] == b);
                assert((b & 0x80 == 0x80 || b & 0x80 == 0) && (b & 0x40 == 0x40 || b & 0x40
                    == 0)) by (bit_vector);
            }
            let step: usize;
            if b & 0x80 == 0x80 {
                let (len, stream_id) = match Encoder::decode_section_ackowledgment(wire, idx) {
                    Ok(p) => p,
                    Err(e) => {
                        proof {
                            assert(spec_dec_instrs(sub) is None);
                        }
                        return Err(e);
                    },
                };
                // An acknowledgement for a stream with no pending section
                // is a decoder-stream error.
                if !self.encoder.has_section(stream_id) {
                    proof {
                        lemma_dec_walk_unacceptable(
                            wire@,
                            idx as int,
                            ms,
                            self.encoder,
                            self.table.dynamic_table,
                        );
                    }
                    return Err(QpackError::DecoderStreamError);
                }
                instrs.push(DecInstr::SectionAck { stream_id });
                proof {
                    ms = ms.push(crate::wire::spec_dec_instr(sub)->Some_0.1);
                }
                step = len;
            } else if b & 0x40 == 0x40 {
                let (len, stream_id) = match Encoder::decode_stream_cancellation(wire, idx) {
                    Ok(p) => p,
                    Err(e) => {
                        proof {
                            assert(spec_dec_instrs(sub) is None);
                        }
                        return Err(e);
                    },
                };
                instrs.push(DecInstr::StreamCancel { stream_id });
                proof {
                    ms = ms.push(crate::wire::spec_dec_instr(sub)->Some_0.1);
                }
                step = len;
            } else {
                let (len, increment) = match Encoder::decode_insert_count_increment(wire, idx) {
                    Ok(p) => p,
                    Err(e) => {
                        proof {
                            assert(spec_dec_instrs(sub) is None);
                        }
                        return Err(e);
                    },
                };
                // A zero increment, or one overtaking what was sent, is a
                // decoder-stream error.
                if increment == 0 {
                    proof {
                        lemma_dec_walk_unacceptable(
                            wire@,
                            idx as int,
                            ms,
                            self.encoder,
                            self.table.dynamic_table,
                        );
                    }
                    return Err(QpackError::DecoderStreamError);
                }
                match self.table.dynamic_table.known_received_count.checked_add(increment) {
                    Some(next) => {
                        if next > self.encoder.known_sending_count {
                            proof {
                                lemma_dec_walk_unacceptable(
                                    wire@,
                                    idx as int,
                                    ms,
                                    self.encoder,
                                    self.table.dynamic_table,
                                );
                            }
                            return Err(QpackError::DecoderStreamError);
                        }
                    },
                    None => {
                        proof {
                            lemma_dec_walk_unacceptable(
                                wire@,
                                idx as int,
                                ms,
                                self.encoder,
                                self.table.dynamic_table,
                            );
                        }
                        return Err(QpackError::DecoderStreamError);
                    },
                }
                instrs.push(DecInstr::InsertCountIncrement { increment });
                proof {
                    ms = ms.push(crate::wire::spec_dec_instr(sub)->Some_0.1);
                }
                step = len;
            }
            proof {
                let lm = crate::wire::spec_dec_instr(sub)->Some_0;
                let l = lm.0;
                let m = lm.1;
                assert(step as int == l);
                assert(ms == pre_ms.push(m));
                assert(dec_instr_matches(m, instrs@.last()));
                assert(sub.skip(l) =~= wire@.skip(idx as int + step as int));
                match spec_dec_instrs(wire@.skip(idx as int + step as int)) {
                    Some(rest) => {
                        assert(spec_dec_instrs(sub) == Some(seq![m] + rest));
                        assert(pre_ms + (seq![m] + rest) =~= ms + rest);
                    },
                    None => {
                        assert(spec_dec_instrs(sub) is None);
                    },
                }
            }
            idx = idx + step;
        }
        proof {
            assert(wire@.skip(wlen as int).len() == 0);
            assert(spec_dec_instrs(wire@.skip(wlen as int)) == Some(
                Seq::<crate::wire::DecInstrModel>::empty(),
            ));
            assert(ms + Seq::<crate::wire::DecInstrModel>::empty() =~= ms);
        }
        Ok(Commit::DecoderInstrs { instrs })
    }

    /// Walks the field lines of a block from `start` on, resolving each
    /// against the tables.
    #[verifier::rlimit(100)]
    #[verifier::spinoff_prover]
    fn decode_field_lines(
        &self,
        wire: &Vec<u8>,
        start: usize,
        base: usize,
        required_insert_count: usize,
    ) -> (r: Result<(Vec<Header>, bool), QpackError>)
        requires
            self.wf(),
            start <= wire@.len(),
        ensures
            match r {
                Ok((headers, refd)) => exists|ls: Seq<(Seq<u8>, Seq<u8>, bool, bool)>|
                    {
                        &&& spec_lines(
                            self.table,
                            base as int,
                            required_insert_count as nat,
                            wire@.skip(start as int),
                        ) == Some(ls)
                        &&& headers@.len() == ls.len()
                        &&& (forall|i: int|
                            0 <= i < ls.len() ==> {
                                &&& (#[trigger] headers@[i]).name_bytes() == ls[i].0
                                &&& headers@[i].value_bytes() == ls[i].1
                                &&& headers@[i].sensitive == ls[i].2
                            })
                        &&& refd == (exists|i: int| 0 <= i < ls.len() && (#[trigger] ls[i]).3)
                    },
                Err(e) => {
                    &&& e == QpackError::DecompressionFailed
                    &&& spec_lines(
                        self.table,
                        base as int,
                        required_insert_count as nat,
                        wire@.skip(start as int),
                    ) is None
                },
            },
    {
        let wlen = wire.len();
        let mut headers: Vec<Header> = Vec::new();
        let mut refd = false;
        let ghost mut ls: Seq<(Seq<u8>, Seq<u8>, bool, bool)> = Seq::empty();
        let mut idx: usize = start;
        proof {
            assert(wire@.skip(start as int).skip(0) =~= wire@.skip(start as int));
        }
        while idx < wlen
            invariant
                self.wf(),
                wlen == wire@.len(),
                start <= idx <= wlen,
                headers@.len() == ls.len(),
                forall|j: int|
                    0 <= j < ls.len() ==> {
                        &&& (#[trigger] headers@[j]).name_bytes() == ls[j].0
                        &&& headers@[j].value_bytes() == ls[j].1
                        &&& headers@[j].sensitive == ls[j].2
                    },
                refd == (exists|j: int| 0 <= j < ls.len() && (#[trigger] ls[j]).3),
                spec_lines(
                    self.table,
                    base as int,
                    required_insert_count as nat,
                    wire@.skip(start as int),
                ) == match spec_lines(
                    self.table,
                    base as int,
                    required_insert_count as nat,
                    wire@.skip(idx as int),
                ) {
                    Some(rest) => Some(ls + rest),
                    None => None::<Seq<(Seq<u8>, Seq<u8>, bool, bool)>>,
                },
            decreases wlen - idx,
        {
            let b = wire[idx];
            let ghost sub = wire@.skip(idx as int);
            let ghost pre_ls = ls;
            proof {
                assert(sub[0] == b);
                assert((b & 0x80 == 0x80 || b & 0x80 == 0) && (b & 0x40 == 0x40 || b & 0x40
                    == 0) && (b & 0x20 == 0x20 || b & 0x20 == 0) && (b & 0x10 == 0x10 || b & 0x10
                    == 0)) by (bit_vector);
            }
            let parsed = if b & 0x80 == 0x80 {
                Decoder::decode_indexed(wire, idx, base, required_insert_count, &self.table)
            } else if b & 0x40 == 0x40 {
                Decoder::decode_refer_name(wire, idx, base, required_insert_count, &self.table)
            } else if b & 0x20 == 0x20 {
                Decoder::decode_both_literal(wire, idx, base, required_insert_count, &self.table)
            } else if b & 0x10 == 0x10 {
                Decoder::decode_indexed_post_base(
                    wire,
                    idx,
                    base,
                    required_insert_count,
                    &self.table,
                )
            } else {
                Decoder::decode_refer_name_post_base(
                    wire,
                    idx,
                    base,
                    required_insert_count,
                    &self.table,
                )
            };
            let (len, header, line_refd) = match parsed {
                Ok(p) => p,
                Err(e) => {
                    return Err(e);
                },
            };
            headers.push(header);
            let ghost pre_refd = refd;
            if line_refd {
                refd = true;
            }
            proof {
                let lm = crate::wire::spec_line(
                    self.table,
                    base as int,
                    required_insert_count as nat,
                    sub,
                )->Some_0;
                ls = ls.push((lm.1, lm.2, lm.3, lm.4));
                assert(lm.4 == line_refd);
                assert(ls.last().3 == line_refd);
                if line_refd {
                    assert(0 <= ls.len() - 1 < ls.len() && (#[trigger] ls[ls.len() - 1]).3);
                } else {
                    if pre_refd {
                        let j = choose|j: int| 0 <= j < pre_ls.len() && (#[trigger] pre_ls[j]).3;
                        assert(ls[j].3);
                    } else {
                        assert forall|j: int| 0 <= j < ls.len() implies !(#[trigger] ls[j]).3 by {
                            if j < pre_ls.len() {
                                assert(ls[j] == pre_ls[j]);
                            }
                        }
                    }
                }
                assert(len as int == lm.0);
                assert(sub.skip(lm.0) =~= wire@.skip(idx as int + len as int));
                match spec_lines(
                    self.table,
                    base as int,
                    required_insert_count as nat,
                    wire@.skip(idx as int + len as int),
                ) {
                    Some(rest) => {
                        assert(spec_lines(
                            self.table,
                            base as int,
                            required_insert_count as nat,
                            sub,
                        ) == Some(seq![(lm.1, lm.2, lm.3, lm.4)] + rest));
                        assert(pre_ls + (seq![(lm.1, lm.2, lm.3, lm.4)] + rest) =~= ls + rest);
                    },
                    None => {
                        assert(spec_lines(
                            self.table,
                            base as int,
                            required_insert_count as nat,
                            sub,
                        ) is None);
                    },
                }
            }
            idx = idx + len;
        }
        proof {
            assert(wire@.skip(wlen as int).len() == 0);
            assert(spec_lines(
                self.table,
                base as int,
                required_insert_count as nat,
                wire@.skip(wlen as int),
            ) == Some(Seq::<(Seq<u8>, Seq<u8>, bool, bool)>::empty()));
            assert(ls + Seq::<(Seq<u8>, Seq<u8>, bool, bool)>::empty() =~= ls);
        }
        Ok((headers, refd))
    }
}

impl Qpack {
    /// Decodes a field block. When the block requires insertions that have
    /// not arrived yet, the stream suspends: the blocked-stream count rises
    /// and `Blocked` reports the required insert count — unless the count
    /// already sits at the configured limit, which fails the block at once.
    /// On completion the decoded section is recorded for acknowledgement.
    pub fn decode_headers(&mut self, wire: &Vec<u8>, stream_id: u16) -> (r: Result<
        DecodedHeaders,
        QpackError,
    >)
        requires
            old(self).wf(),
        ensures
            final(self).wf(),
            final(self).table == old(self).table,
            final(self).encoder == old(self).encoder,
            final(self).blocked_streams_limit == old(self).blocked_streams_limit,
            match r {
                Ok(DecodedHeaders::Done { headers, referenced_dynamic }) => exists|
                    plen: int,
                    ric: usize,
                    base: usize,
                    ls: Seq<(Seq<u8>, Seq<u8>, bool, bool)>,

                |
                    #![trigger spec_lines(old(self).table, base as int, ric as nat, wire@.skip(plen)), ls.len()]
                    {
                        &&& crate::wire::spec_prefix(
                            wire@,
                            (old(self).table.dynamic_table.max_capacity as int / 32) as nat,
                            old(self).table.dynamic_table.insert_count as nat,
                        ) == Some((plen, ric as nat, base as nat))
                        &&& ric <= old(self).table.dynamic_table.insert_count
                        &&& spec_lines(
                            old(self).table,
                            base as int,
                            ric as nat,
                            wire@.skip(plen),
                        ) == Some(ls)
                        &&& headers@.len() == ls.len()
                        &&& (forall|i: int|
                            0 <= i < ls.len() ==> {
                                &&& (#[trigger] headers@[i]).name_bytes() == ls[i].0
                                &&& headers@[i].value_bytes() == ls[i].1
                                &&& headers@[i].sensitive == ls[i].2
                            })
                        &&& referenced_dynamic == (exists|i: int|
                            0 <= i < ls.len() && (#[trigger] ls[i]).3)
                        &&& final(self).decoder.current_blocked_streams == old(
                            self,
                        ).decoder.current_blocked_streams
                        &&& (ric > 0 ==> final(self).decoder.pending_sections@ == old(
                            self,
                        ).decoder.pending_sections@.push((stream_id, ric)))
                        &&& (ric == 0 ==> final(self).decoder == old(self).decoder)
                    },
                Ok(DecodedHeaders::Blocked { required_insert_count }) => {
                    &&& required_insert_count > old(self).table.dynamic_table.insert_count
                    &&& old(self).decoder.current_blocked_streams < old(
                        self,
                    ).blocked_streams_limit
                    &&& final(self).decoder.current_blocked_streams == old(
                        self,
                    ).decoder.current_blocked_streams + 1
                    &&& final(self).decoder.pending_sections@ == old(
                        self,
                    ).decoder.pending_sections@
                },
                Err(e) => {
                    &&& e == QpackError::DecompressionFailed
                    &&& final(self).decoder == old(self).decoder
                    &&& match crate::wire::spec_prefix(
                        wire@,
                        (old(self).table.dynamic_table.max_capacity as int / 32) as nat,
                        old(self).table.dynamic_table.insert_count as nat,
                    ) {
                        Some((plen, ric, base)) => ric > usize::MAX || base > usize::MAX || (ric
                            > old(self).table.dynamic_table.insert_count && old(
                            self,
                        ).decoder.current_blocked_streams == old(self).blocked_streams_limit) || (
                        ric <= old(self).table.dynamic_table.insert_count && spec_lines(
                            old(self).table,
                            base as int,
                            ric as nat,
                            wire@.skip(plen),
                        ) is None),
                        None => true,
                    }
                },
            },
    {
        let (plen, required_insert_count, base) = match Decoder::prefix(wire, 0, &self.table) {
            Ok(p) => p,
            Err(e) => {
                proof {
                    assert(wire@.skip(0) =~= wire@);
                }
                return Err(e);
            },
        };
        proof {
            assert(wire@.skip(0) =~= wire@);
        }
        if required_insert_count > self.table.get_insert_count() {
            // The table has not caught up: suspend, or fail at the limit.
            if self.decoder.current_blocked_streams >= self.blocked_streams_limit {
                return Err(QpackError::DecompressionFailed);
            }
            self.decoder.current_blocked_streams = self.decoder.current_blocked_streams + 1;
            return Ok(DecodedHeaders::Blocked { required_insert_count });
        }
        let (headers, referenced_dynamic) = match self.decode_field_lines(
            wire,
            plen,
            base,
            required_insert_count,
        ) {
            Ok(p) => p,
            Err(e) => {
                return Err(e);
            },
        };
        if required_insert_count != 0 {
            self.decoder.add_section(stream_id, required_insert_count);
        }
        Ok(DecodedHeaders::Done { headers, referenced_dynamic })
    }

    /// Finishes a block that suspended earlier: wakes the stream (lowering
    /// the blocked-stream count) and decodes the block, whose required
    /// insertions must have arrived by now.
    pub fn finish_blocked_decode(&mut self, wire: &Vec<u8>, stream_id: u16) -> (r: Result<
        (Vec<Header>, bool),
        QpackError,
    >)
        requires
            old(self).wf(),
            old(self).decoder.current_blocked_streams >= 1,
        ensures
            final(self).wf(),
            final(self).table == old(self).table,
            final(self).encoder == old(self).encoder,
            final(self).blocked_streams_limit == old(self).blocked_streams_limit,
            final(self).decoder.current_blocked_streams == old(
                self,
            ).decoder.current_blocked_streams - 1,
            match r {
                Ok((headers, referenced_dynamic)) => exists|
                    plen: int,
                    ric: usize,
                    base: usize,
                    ls: Seq<(Seq<u8>, Seq<u8>, bool, bool)>,

                |
                    #![trigger spec_lines(old(self).table, base as int, ric as nat, wire@.skip(plen)), ls.len()]
                    {
                        &&& crate::wire::spec_prefix(
                            wire@,
                            (old(self).table.dynamic_table.max_capacity as int / 32) as nat,
                            old(self).table.dynamic_table.insert_count as nat,
                        ) == Some((plen, ric as nat, base as nat))
                        &&& ric <= old(self).table.dynamic_table.insert_count
                        &&& spec_lines(
                            old(self).table,
                            base as int,
                            ric as nat,
                            wire@.skip(plen),
                        ) == Some(ls)
                        &&& headers@.len() == ls.len()
                        &&& (forall|i: int|
                            0 <= i < ls.len() ==> {
                                &&& (#[trigger] headers@[i]).name_bytes() == ls[i].0
                                &&& headers@[i].value_bytes() == ls[i].1
                                &&& headers@[i].sensitive == ls[i].2
                            })
                        &&& referenced_dynamic == (exists|i: int|
                            0 <= i < ls.len() && (#[trigger] ls[i]).3)
                        &&& (ric > 0 ==> final(self).decoder.pending_sections@ == old(
                            self,
                        ).decoder.pending_sections@.push((stream_id, ric)))
                        &&& (ric == 0 ==> final(self).decoder.pending_sections@ == old(
                            self,
                        ).decoder.pending_sections@)
                    },
                Err(e) => {
                    &&& e == QpackError::DecompressionFailed
                    &&& final(self).decoder.pending_sections@ == old(
                        self,
                    ).decoder.pending_sections@
                    &&& match crate::wire::spec_prefix(
                        wire@,
                        (old(self).table.dynamic_table.max_capacity as int / 32) as nat,
                        old(self).table.dynamic_table.insert_count as nat,
                    ) {
                        Some((plen, ric, base)) => ric > usize::MAX || base > usize::MAX || ric
                            > old(self).table.dynamic_table.insert_count || (ric <= old(
                            self,
                        ).table.dynamic_table.insert_count && spec_lines(
                            old(self).table,
                            base as int,
                            ric as nat,
                            wire@.skip(plen),
                        ) is None),
                        None => true,
                    }
                },
            },
    {
        self.decoder.current_blocked_streams = self.decoder.current_blocked_streams - 1;
        let (plen, required_insert_count, base) = match Decoder::prefix(wire, 0, &self.table) {
            Ok(p) => p,
            Err(e) => {
                proof {
                    assert(wire@.skip(0) =~= wire@);
                }
                return Err(e);
            },
        };
        proof {
            assert(wire@.skip(0) =~= wire@);
        }
        if required_insert_count > self.table.get_insert_count() {
            // Woken too early: the table still lacks the insertions.
            return Err(QpackError::DecompressionFailed);
        }
        let (headers, referenced_dynamic) = match self.decode_field_lines(
            wire,
            plen,
            base,
            required_insert_count,
        ) {
            Ok(p) => p,
            Err(e) => {
                return Err(e);
            },
        };
        if required_insert_count != 0 {
            self.decoder.add_section(stream_id, required_insert_count);
        }
        Ok((headers, referenced_dynamic))
    }
}

} // verus!
