//! The messages of PostgreSQL's `pgoutput` plugin, protocol version 1.
use vstd::prelude::*;
use crate::bytes;
use crate::error::Error;
use crate::text;
use crate::utf8;

verus! {

// Messages

/// A column value of a tuple.
#[derive(Debug, PartialEq, Eq)]
pub enum PgValue {
    Null,
    /// The value in the text form of its type.
    Text(String),
    /// An out-of-line value that the change left alone, and that the log does not carry.
    Unchanged,
}

/// What a [`PgValue`] holds.
pub enum PgValueView {
    Null,
    Text(Seq<char>),
    Unchanged,
}

impl View for PgValue {
    type V = PgValueView;

    open spec fn view(&self) -> PgValueView {
        match self {
            PgValue::Null => PgValueView::Null,
            PgValue::Text(value) => PgValueView::Text(value@),
            PgValue::Unchanged => PgValueView::Unchanged,
        }
    }
}

/// What each of some values holds.
pub open spec fn value_views(values: Seq<PgValue>) -> Seq<PgValueView> {
    values.map_values(|value: PgValue| value@)
}

/// What a tuple holds, where there is one.
pub open spec fn tuple_view(tuple: Option<Vec<PgValue>>) -> Option<Seq<PgValueView>> {
    match tuple {
        Some(values) => Some(value_views(values@)),
        None => None,
    }
}

/// A column of a relation.
#[derive(Debug, PartialEq, Eq)]
pub struct PgColumn {
    pub flags: u8,
    pub name: String,
    pub type_oid: u32,
    pub type_modifier: i32,
}

/// What a [`PgColumn`] holds.
pub struct PgColumnView {
    pub flags: u8,
    pub name: Seq<char>,
    pub type_oid: u32,
    pub type_modifier: i32,
}

impl View for PgColumn {
    type V = PgColumnView;

    open spec fn view(&self) -> PgColumnView {
        PgColumnView {
            flags: self.flags,
            name: self.name@,
            type_oid: self.type_oid,
            type_modifier: self.type_modifier,
        }
    }
}

impl PgColumnView {
    /// Whether the column is part of the replica identity.
    pub open spec fn is_key(self) -> bool {
        self.flags % 2 == 1
    }
}

impl PgColumn {
    /// Whether the column is part of the replica identity.
    pub fn is_key(&self) -> (yes: bool)
        ensures
            yes == self@.is_key(),
    {
        self.flags % 2 == 1
    }
}

/// What each of some columns holds.
pub open spec fn column_views(columns: Seq<PgColumn>) -> Seq<PgColumnView> {
    columns.map_values(|column: PgColumn| column@)
}

/// A relation: the shape of a table as the stream sends it.
#[derive(Debug, PartialEq, Eq)]
pub struct PgRelation {
    pub oid: u32,
    pub namespace: String,
    pub name: String,
    /// `d`, `n`, `f` or `i`.
    pub replica_identity: u8,
    pub columns: Vec<PgColumn>,
}

/// What a [`PgRelation`] holds.
pub struct RelationView {
    pub oid: u32,
    pub namespace: Seq<char>,
    pub name: Seq<char>,
    pub replica_identity: u8,
    pub columns: Seq<PgColumnView>,
}

impl View for PgRelation {
    type V = RelationView;

    open spec fn view(&self) -> RelationView {
        RelationView {
            oid: self.oid,
            namespace: self.namespace@,
            name: self.name@,
            replica_identity: self.replica_identity,
            columns: column_views(self.columns@),
        }
    }
}

/// The start of a transaction.
#[derive(Debug, Clone, Copy, PartialEq, Eq)]
pub struct PgBegin {
    pub final_lsn: u64,
    pub commit_timestamp_us: i64,
    pub xid: u32,
}

/// The end of a transaction.
#[derive(Debug, Clone, Copy, PartialEq, Eq)]
pub struct PgCommit {
    pub flags: u8,
    pub commit_lsn: u64,
    /// The place after the commit record.
    pub end_lsn: u64,
    pub commit_timestamp_us: i64,
}

/// A row came to be.
#[derive(Debug, PartialEq, Eq)]
pub struct PgInsert {
    pub relation_oid: u32,
    pub new_tuple: Vec<PgValue>,
}

/// A row changed.
#[derive(Debug, PartialEq, Eq)]
pub struct PgUpdate {
    pub relation_oid: u32,
    /// The old key, where the change touched it.
    pub key_tuple: Option<Vec<PgValue>>,
    /// The old row, where the table's replica identity is the whole row.
    pub old_tuple: Option<Vec<PgValue>>,
    pub new_tuple: Vec<PgValue>,
}

/// A row ceased to be.
#[derive(Debug, PartialEq, Eq)]
pub struct PgDelete {
    pub relation_oid: u32,
    pub key_tuple: Option<Vec<PgValue>>,
    pub old_tuple: Option<Vec<PgValue>>,
}

/// Tables were emptied.
#[derive(Debug, PartialEq, Eq)]
pub struct PgTruncate {
    pub options: u8,
    pub relation_oids: Vec<u32>,
}

/// A message that an application wrote to the log.
#[derive(Debug, PartialEq, Eq)]
pub struct PgLogicalMessage {
    pub transactional: bool,
    pub lsn: u64,
    pub prefix: String,
    pub content: Vec<u8>,
}

/// A decoded message.
#[derive(Debug, PartialEq, Eq)]
pub enum PgOutputMessage {
    Begin(PgBegin),
    Commit(PgCommit),
    Relation(PgRelation),
    Insert(PgInsert),
    Update(PgUpdate),
    Delete(PgDelete),
    Truncate(PgTruncate),
    LogicalMessage(PgLogicalMessage),
    /// A message of another kind, by its tag.
    Unknown(u8),
}

/// What a [`PgOutputMessage`] holds.
pub enum MessageView {
    Begin(PgBegin),
    Commit(PgCommit),
    Relation(RelationView),
    Insert { oid: u32, new_tuple: Seq<PgValueView> },
    Update {
        oid: u32,
        key_tuple: Option<Seq<PgValueView>>,
        old_tuple: Option<Seq<PgValueView>>,
        new_tuple: Seq<PgValueView>,
    },
    Delete {
        oid: u32,
        key_tuple: Option<Seq<PgValueView>>,
        old_tuple: Option<Seq<PgValueView>>,
    },
    Truncate { options: u8, oids: Seq<u32> },
    LogicalMessage { transactional: bool, lsn: u64, prefix: Seq<char>, content: Seq<u8> },
    Unknown(u8),
}

impl View for PgOutputMessage {
    type V = MessageView;

    open spec fn view(&self) -> MessageView {
        match self {
            PgOutputMessage::Begin(begin) => MessageView::Begin(*begin),
            PgOutputMessage::Commit(commit) => MessageView::Commit(*commit),
            PgOutputMessage::Relation(relation) => MessageView::Relation(relation@),
            PgOutputMessage::Insert(insert) => MessageView::Insert {
                oid: insert.relation_oid,
                new_tuple: value_views(insert.new_tuple@),
            },
            PgOutputMessage::Update(update) => MessageView::Update {
                oid: update.relation_oid,
                key_tuple: tuple_view(update.key_tuple),
                old_tuple: tuple_view(update.old_tuple),
                new_tuple: value_views(update.new_tuple@),
            },
            PgOutputMessage::Delete(delete) => MessageView::Delete {
                oid: delete.relation_oid,
                key_tuple: tuple_view(delete.key_tuple),
                old_tuple: tuple_view(delete.old_tuple),
            },
            PgOutputMessage::Truncate(truncate) => MessageView::Truncate {
                options: truncate.options,
                oids: truncate.relation_oids@,
            },
            PgOutputMessage::LogicalMessage(message) => MessageView::LogicalMessage {
                transactional: message.transactional,
                lsn: message.lsn,
                prefix: message.prefix@,
                content: message.content@,
            },
            PgOutputMessage::Unknown(tag) => MessageView::Unknown(*tag),
        }
    }
}

// Grammar

/// The unsigned number of some bytes, where they are there.
pub open spec fn number_at(data: Seq<u8>, at: int, width: nat) -> Option<nat> {
    if 0 <= at && at + width <= data.len() {
        Some(bytes::big_endian(data.subrange(at, at + width)))
    } else {
        None
    }
}

/// The place of the first zero byte from a place on, or the end.
pub open spec fn zero_at(data: Seq<u8>, at: int) -> int
    decreases data.len() - at,
{
    if at < 0 || at >= data.len() || data[at] == 0 {
        at
    } else {
        zero_at(data, at + 1)
    }
}

/// A text that a zero byte ends, and the place after it.
pub open spec fn text_at(data: Seq<u8>, at: int) -> Option<(Seq<char>, int)> {
    let end = zero_at(data, at);
    if 0 <= at && end < data.len() && vstd::utf8::valid_utf8(data.subrange(at, end)) {
        Some((vstd::utf8::decode_utf8(data.subrange(at, end)), end + 1))
    } else {
        None
    }
}

/// A column value, and the place after it.
pub open spec fn value_at(data: Seq<u8>, at: int) -> Option<(PgValueView, int)> {
    if at < 0 || at >= data.len() {
        None
    } else if data[at] == 0x6e {
        Some((PgValueView::Null, at + 1))
    } else if data[at] == 0x75 {
        Some((PgValueView::Unchanged, at + 1))
    } else if data[at] == 0x74 {
        match number_at(data, at + 1, 4) {
            Some(raw) => {
                let size = bytes::signed(raw, 4);
                if size >= 0 && at + 5 + size <= data.len() && vstd::utf8::valid_utf8(
                    data.subrange(at + 5, at + 5 + size),
                ) {
                    Some(
                        (
                            PgValueView::Text(
                                vstd::utf8::decode_utf8(data.subrange(at + 5, at + 5 + size)),
                            ),
                            at + 5 + size,
                        ),
                    )
                } else {
                    None
                }
            },
            None => None,
        }
    } else {
        None
    }
}

/// Some column values, and the place after them.
pub open spec fn values_at(data: Seq<u8>, at: int, count: nat) -> Option<(Seq<PgValueView>, int)>
    decreases count,
{
    if count == 0 {
        Some((Seq::empty(), at))
    } else {
        match values_at(data, at, (count - 1) as nat) {
            Some((values, next)) => match value_at(data, next) {
                Some((value, after)) => Some((values.push(value), after)),
                None => None,
            },
            None => None,
        }
    }
}

/// A tuple: a count of column values, and the values.
pub open spec fn tuple_at(data: Seq<u8>, at: int) -> Option<(Seq<PgValueView>, int)> {
    match number_at(data, at, 2) {
        Some(count) => values_at(data, at + 2, count),
        None => None,
    }
}

/// A column of a relation, and the place after it.
pub open spec fn column_at(data: Seq<u8>, at: int) -> Option<(PgColumnView, int)> {
    match (number_at(data, at, 1), text_at(data, at + 1)) {
        (Some(flags), Some((name, next))) => match (
            number_at(data, next, 4),
            number_at(data, next + 4, 4),
        ) {
            (Some(type_oid), Some(modifier)) => Some(
                (
                    PgColumnView {
                        flags: flags as u8,
                        name,
                        type_oid: type_oid as u32,
                        type_modifier: bytes::signed(modifier, 4) as i32,
                    },
                    next + 8,
                ),
            ),
            _ => None,
        },
        _ => None,
    }
}

/// Some columns of a relation, and the place after them.
pub open spec fn columns_at(data: Seq<u8>, at: int, count: nat) -> Option<
    (Seq<PgColumnView>, int),
>
    decreases count,
{
    if count == 0 {
        Some((Seq::empty(), at))
    } else {
        match columns_at(data, at, (count - 1) as nat) {
            Some((columns, next)) => match column_at(data, next) {
                Some((column, after)) => Some((columns.push(column), after)),
                None => None,
            },
            None => None,
        }
    }
}

/// The relation that a message describes.
pub open spec fn relation_in(data: Seq<u8>) -> Option<RelationView> {
    match (number_at(data, 1, 4), text_at(data, 5)) {
        (Some(oid), Some((namespace, after_namespace))) => match text_at(data, after_namespace) {
            Some((name, after_name)) => match (
                number_at(data, after_name, 1),
                number_at(data, after_name + 1, 2),
            ) {
                (Some(identity), Some(count)) => match columns_at(data, after_name + 3, count) {
                    Some((columns, _)) => Some(
                        RelationView {
                            oid: oid as u32,
                            namespace,
                            name,
                            replica_identity: identity as u8,
                            columns,
                        },
                    ),
                    None => None,
                },
                _ => None,
            },
            None => None,
        },
        _ => None,
    }
}

/// The old image that a change carries, by its marker, and the place after it.
pub open spec fn old_image_at(data: Seq<u8>, at: int) -> Option<
    (Option<Seq<PgValueView>>, Option<Seq<PgValueView>>, int),
> {
    if at < 0 || at >= data.len() {
        None
    } else if data[at] == 0x4b {
        match tuple_at(data, at + 1) {
            Some((values, next)) => Some((Some(values), None, next)),
            None => None,
        }
    } else if data[at] == 0x4f {
        match tuple_at(data, at + 1) {
            Some((values, next)) => Some((None, Some(values), next)),
            None => None,
        }
    } else {
        Some((None, None, at))
    }
}

/// The new image that a change carries, behind its marker.
pub open spec fn new_image_at(data: Seq<u8>, at: int) -> Option<Seq<PgValueView>> {
    if 0 <= at < data.len() && data[at] == 0x4e {
        match tuple_at(data, at + 1) {
            Some((values, _)) => Some(values),
            None => None,
        }
    } else {
        None
    }
}

/// The relations that a truncation names.
pub open spec fn oids_at(data: Seq<u8>, at: int, count: nat) -> Option<Seq<u32>> {
    if 0 <= at && at + 4 * count <= data.len() {
        Some(
            Seq::new(
                count,
                |i: int| bytes::big_endian(data.subrange(at + 4 * i, at + 4 * i + 4)) as u32,
            ),
        )
    } else {
        None
    }
}

/// The message that an application wrote to the log.
pub open spec fn logical_message_in(data: Seq<u8>) -> Option<MessageView> {
    match (number_at(data, 1, 1), number_at(data, 2, 8), text_at(data, 10)) {
        (Some(flags), Some(lsn), Some((prefix, next))) => match number_at(data, next, 4) {
            Some(raw) => {
                let size = bytes::signed(raw, 4);
                if size >= 0 && next + 4 + size <= data.len() {
                    Some(
                        MessageView::LogicalMessage {
                            transactional: flags % 2 == 1,
                            lsn: lsn as u64,
                            prefix,
                            content: data.subrange(next + 4, next + 4 + size),
                        },
                    )
                } else {
                    None
                }
            },
            None => None,
        },
        _ => None,
    }
}

/// The message that some bytes hold, where they hold one.
pub open spec fn message_in(data: Seq<u8>) -> Option<MessageView> {
    if data.len() == 0 {
        None
    } else if data[0] == 0x42 {
        match (number_at(data, 1, 8), number_at(data, 9, 8), number_at(data, 17, 4)) {
            (Some(lsn), Some(ts), Some(xid)) => Some(
                MessageView::Begin(
                    PgBegin {
                        final_lsn: lsn as u64,
                        commit_timestamp_us: bytes::signed(ts, 8) as i64,
                        xid: xid as u32,
                    },
                ),
            ),
            _ => None,
        }
    } else if data[0] == 0x43 {
        match (
            number_at(data, 1, 1),
            number_at(data, 2, 8),
            number_at(data, 10, 8),
            number_at(data, 18, 8),
        ) {
            (Some(flags), Some(lsn), Some(end), Some(ts)) => Some(
                MessageView::Commit(
                    PgCommit {
                        flags: flags as u8,
                        commit_lsn: lsn as u64,
                        end_lsn: end as u64,
                        commit_timestamp_us: bytes::signed(ts, 8) as i64,
                    },
                ),
            ),
            _ => None,
        }
    } else if data[0] == 0x52 {
        match relation_in(data) {
            Some(relation) => Some(MessageView::Relation(relation)),
            None => None,
        }
    } else if data[0] == 0x49 {
        match (number_at(data, 1, 4), new_image_at(data, 5)) {
            (Some(oid), Some(new_tuple)) => Some(
                MessageView::Insert { oid: oid as u32, new_tuple },
            ),
            _ => None,
        }
    } else if data[0] == 0x55 {
        match (number_at(data, 1, 4), old_image_at(data, 5)) {
            (Some(oid), Some((key_tuple, old_tuple, next))) => match new_image_at(data, next) {
                Some(new_tuple) => Some(
                    MessageView::Update { oid: oid as u32, key_tuple, old_tuple, new_tuple },
                ),
                None => None,
            },
            _ => None,
        }
    } else if data[0] == 0x44 {
        match (number_at(data, 1, 4), old_image_at(data, 5)) {
            (Some(oid), Some((key_tuple, old_tuple, _))) => if key_tuple is Some
                || old_tuple is Some {
                Some(MessageView::Delete { oid: oid as u32, key_tuple, old_tuple })
            } else {
                None
            },
            _ => None,
        }
    } else if data[0] == 0x54 {
        match (number_at(data, 1, 4), number_at(data, 5, 1)) {
            (Some(count), Some(options)) => match oids_at(data, 6, count) {
                Some(oids) => Some(MessageView::Truncate { options: options as u8, oids }),
                None => None,
            },
            _ => None,
        }
    } else if data[0] == 0x4d {
        logical_message_in(data)
    } else {
        Some(MessageView::Unknown(data[0]))
    }
}

// Reading

fn read_number(data: &[u8], at: usize, width: usize) -> (value: Option<u64>)
    requires
        width <= 8,
    ensures
        match value {
            Some(value) => number_at(data@, at as int, width as nat) == Some(value as nat)
                && at + width <= data@.len() && (value as nat) < bytes::span(width as nat),
            None => number_at(data@, at as int, width as nat) is None,
        },
{
    let size = data.len();
    if at <= size && width <= size - at {
        Some(bytes::read_big_endian(data, at, width))
    } else {
        None
    }
}

fn read_u32(data: &[u8], at: usize) -> (value: Option<u32>)
    ensures
        match value {
            Some(value) => number_at(data@, at as int, 4) == Some(value as nat) && at + 4
                <= data@.len(),
            None => number_at(data@, at as int, 4) is None,
        },
{
    let size = data.len();
    if at <= size && 4 <= size - at {
        Some(bytes::read_u32(data, at))
    } else {
        None
    }
}

fn read_byte(data: &[u8], at: usize) -> (value: Option<u8>)
    ensures
        match value {
            Some(value) => number_at(data@, at as int, 1) == Some(value as nat) && at
                < data@.len() && value == data@[at as int],
            None => number_at(data@, at as int, 1) is None && at >= data@.len(),
        },
{
    if at < data.len() {
        proof {
            let part = data@.subrange(at as int, at + 1);
            reveal_with_fuel(bytes::big_endian, 2);
            assert(part.drop_last() =~= Seq::empty());
            assert(part.last() == data@[at as int]);
        }
        Some(data[at])
    } else {
        None
    }
}

fn copy_part(data: &[u8], from: usize, to: usize) -> (part: Vec<u8>)
    requires
        from <= to <= data@.len(),
    ensures
        part@ == data@.subrange(from as int, to as int),
{
    let mut part: Vec<u8> = Vec::new();
    let mut i: usize = from;
    while i < to
        invariant
            from <= i <= to,
            to <= data@.len(),
            part@ == data@.subrange(from as int, i as int),
        decreases to - i,
    {
        part.push(data[i]);
        i = i + 1;
        proof {
            assert(part@ =~= data@.subrange(from as int, i as int));
        }
    }
    part
}

fn read_text(data: &[u8], at: usize) -> (found: Option<(String, usize)>)
    ensures
        match found {
            Some((found, next)) => text_at(data@, at as int) == Some((found@, next as int))
                && next <= data@.len(),
            None => text_at(data@, at as int) is None,
        },
{
    let size = data.len();
    if at >= size {
        return None;
    }
    let mut end: usize = at;
    while end < size && data[end] != 0
        invariant
            at <= end <= size,
            size == data@.len(),
            zero_at(data@, at as int) == zero_at(data@, end as int),
        decreases size - end,
    {
        end = end + 1;
    }
    if end == size {
        return None;
    }
    match utf8::decode(copy_part(data, at, end).as_slice()) {
        Some(found) => Some((found, end + 1)),
        None => None,
    }
}

fn read_value(data: &[u8], at: usize) -> (found: Option<(PgValue, usize)>)
    ensures
        match found {
            Some((value, next)) => value_at(data@, at as int) == Some((value@, next as int))
                && next <= data@.len(),
            None => value_at(data@, at as int) is None,
        },
{
    let total = data.len();
    if at >= total {
        return None;
    }
    let kind = data[at];
    if kind == 0x6e {
        Some((PgValue::Null, at + 1))
    } else if kind == 0x75 {
        Some((PgValue::Unchanged, at + 1))
    } else if kind == 0x74 {
        if total - at < 5 {
            return None;
        }
        let size = bytes::read_i32(data, at + 1);
        if size < 0 || (size as usize) > total - at - 5 {
            return None;
        }
        let end = at + 5 + size as usize;
        match utf8::decode(copy_part(data, at + 5, end).as_slice()) {
            Some(found) => Some((PgValue::Text(found), end)),
            None => None,
        }
    } else {
        None
    }
}

proof fn lemma_values_stop(data: Seq<u8>, at: int, few: nat, many: nat)
    requires
        few <= many,
        values_at(data, at, few) is None,
    ensures
        values_at(data, at, many) is None,
    decreases many,
{
    if few < many {
        lemma_values_stop(data, at, few, (many - 1) as nat);
    }
}

fn read_tuple(data: &[u8], at: usize) -> (found: Option<(Vec<PgValue>, usize)>)
    ensures
        match found {
            Some((values, next)) => tuple_at(data@, at as int) == Some(
                (value_views(values@), next as int),
            ) && next <= data@.len(),
            None => tuple_at(data@, at as int) is None,
        },
{
    let count = match read_number(data, at, 2) {
        Some(count) => count,
        None => {
            return None;
        },
    };
    let mut values: Vec<PgValue> = Vec::new();
    let total = data.len();
    proof {
        assert(at + 2 <= total);
    }
    let start = at + 2;
    let mut next: usize = start;
    let mut i: u64 = 0;
    proof {
        assert(value_views(values@) =~= Seq::empty());
    }
    while i < count
        invariant
            i <= count,
            start == at + 2,
            next <= data@.len(),
            number_at(data@, at as int, 2) == Some(count as nat),
            values_at(data@, start as int, i as nat) == Some(
                (value_views(values@), next as int),
            ),
        decreases count - i,
    {
        match read_value(data, next) {
            Some((value, after)) => {
                let ghost before = value_views(values@);
                let ghost seen = value@;
                values.push(value);
                next = after;
                proof {
                    assert(value_views(values@) =~= before.push(seen));
                }
            },
            None => {
                proof {
                    assert(values_at(data@, start as int, (i + 1) as nat) is None);
                    lemma_values_stop(data@, start as int, (i + 1) as nat, count as nat);
                }
                return None;
            },
        }
        i = i + 1;
    }
    Some((values, next))
}

fn read_column(data: &[u8], at: usize) -> (found: Option<(PgColumn, usize)>)
    ensures
        match found {
            Some((column, next)) => column_at(data@, at as int) == Some(
                (column@, next as int),
            ) && next <= data@.len(),
            None => column_at(data@, at as int) is None,
        },
{
    let flags = match read_byte(data, at) {
        Some(flags) => flags,
        None => {
            return None;
        },
    };
    let size = data.len();
    proof {
        assert(at < size);
    }
    let (name, next) = match read_text(data, at + 1) {
        Some(found) => found,
        None => {
            return None;
        },
    };
    let type_oid = match read_u32(data, next) {
        Some(type_oid) => type_oid,
        None => {
            return None;
        },
    };
    if size - next < 8 {
        return None;
    }
    let type_modifier = bytes::read_i32(data, next + 4);
    Some((PgColumn { flags, name, type_oid, type_modifier }, next + 8))
}

proof fn lemma_columns_stop(data: Seq<u8>, at: int, few: nat, many: nat)
    requires
        few <= many,
        columns_at(data, at, few) is None,
    ensures
        columns_at(data, at, many) is None,
    decreases many,
{
    if few < many {
        lemma_columns_stop(data, at, few, (many - 1) as nat);
    }
}

fn read_relation(data: &[u8]) -> (found: Option<PgRelation>)
    requires
        data@.len() > 0,
    ensures
        match found {
            Some(relation) => relation_in(data@) == Some(relation@),
            None => relation_in(data@) is None,
        },
{
    let oid = match read_u32(data, 1) {
        Some(oid) => oid,
        None => {
            return None;
        },
    };
    let (namespace, after_namespace) = match read_text(data, 5) {
        Some(found) => found,
        None => {
            return None;
        },
    };
    let (name, after_name) = match read_text(data, after_namespace) {
        Some(found) => found,
        None => {
            return None;
        },
    };
    let replica_identity = match read_byte(data, after_name) {
        Some(identity) => identity,
        None => {
            return None;
        },
    };
    let size = data.len();
    proof {
        assert(after_name < size);
    }
    let count = match read_number(data, after_name + 1, 2) {
        Some(count) => count,
        None => {
            return None;
        },
    };
    proof {
        assert(after_name + 3 <= size);
    }
    let start = after_name + 3;
    let mut columns: Vec<PgColumn> = Vec::new();
    let mut next: usize = start;
    let mut i: u64 = 0;
    proof {
        assert(column_views(columns@) =~= Seq::empty());
    }
    while i < count
        invariant
            i <= count,
            next <= data@.len(),
            start == after_name + 3,
            number_at(data@, 1, 4) == Some(oid as nat),
            text_at(data@, 5) == Some((namespace@, after_namespace as int)),
            text_at(data@, after_namespace as int) == Some((name@, after_name as int)),
            number_at(data@, after_name as int, 1) == Some(replica_identity as nat),
            number_at(data@, after_name + 1, 2) == Some(count as nat),
            columns_at(data@, start as int, i as nat) == Some(
                (column_views(columns@), next as int),
            ),
        decreases count - i,
    {
        match read_column(data, next) {
            Some((column, after)) => {
                let ghost before = column_views(columns@);
                let ghost seen = column@;
                columns.push(column);
                next = after;
                proof {
                    assert(column_views(columns@) =~= before.push(seen));
                }
            },
            None => {
                proof {
                    assert(columns_at(data@, start as int, (i + 1) as nat) is None);
                    lemma_columns_stop(data@, start as int, (i + 1) as nat, count as nat);
                }
                return None;
            },
        }
        i = i + 1;
    }
    Some(PgRelation { oid, namespace, name, replica_identity, columns })
}

fn read_new_image(data: &[u8], at: usize) -> (found: Option<Vec<PgValue>>)
    ensures
        match found {
            Some(values) => new_image_at(data@, at as int) == Some(value_views(values@)),
            None => new_image_at(data@, at as int) is None,
        },
{
    let size = data.len();
    if at < size && data[at] == 0x4e {
        match read_tuple(data, at + 1) {
            Some((values, _)) => Some(values),
            None => None,
        }
    } else {
        None
    }
}

fn read_old_image(data: &[u8], at: usize) -> (found: Option<
    (Option<Vec<PgValue>>, Option<Vec<PgValue>>, usize),
>)
    ensures
        match found {
            Some((key, old_row, next)) => old_image_at(data@, at as int) == Some(
                (tuple_view(key), tuple_view(old_row), next as int),
            ) && next <= data@.len(),
            None => old_image_at(data@, at as int) is None,
        },
{
    let size = data.len();
    if at >= size {
        None
    } else if data[at] == 0x4b {
        match read_tuple(data, at + 1) {
            Some((values, next)) => Some((Some(values), None, next)),
            None => None,
        }
    } else if data[at] == 0x4f {
        match read_tuple(data, at + 1) {
            Some((values, next)) => Some((None, Some(values), next)),
            None => None,
        }
    } else {
        Some((None, None, at))
    }
}

fn read_truncate(data: &[u8]) -> (found: Option<PgTruncate>)
    requires
        data@.len() > 0,
        data@[0] == 0x54,
    ensures
        match found {
            Some(truncate) => message_in(data@) == Some(
                MessageView::Truncate {
                    options: truncate.options,
                    oids: truncate.relation_oids@,
                },
            ),
            None => message_in(data@) is None,
        },
{
    let count = match read_u32(data, 1) {
        Some(count) => count,
        None => {
            return None;
        },
    };
    let options = match read_byte(data, 5) {
        Some(options) => options,
        None => {
            return None;
        },
    };
    let size = data.len();
    if (count as u64) * 4 > (size - 6) as u64 {
        return None;
    }
    let ghost all = oids_at(data@, 6, count as nat)->0;
    let mut oids: Vec<u32> = Vec::new();
    let mut at: usize = 6;
    let mut i: u32 = 0;
    while i < count
        invariant
            i <= count,
            at == 6 + 4 * i,
            size == data@.len(),
            6 + 4 * count <= size,
            oids_at(data@, 6, count as nat) == Some(all),
            oids@ == all.take(i as int),
        decreases count - i,
    {
        let oid = bytes::read_u32(data, at);
        proof {
            assert(all[i as int] == oid);
            assert(all.take(i + 1) =~= all.take(i as int).push(oid));
        }
        oids.push(oid);
        at = at + 4;
        i = i + 1;
    }
    proof {
        assert(all.take(count as int) =~= all);
    }
    Some(PgTruncate { options, relation_oids: oids })
}

/// What is told of an application's message that cannot be read.
pub open spec fn logical_refusal(data: Seq<u8>) -> Seq<char> {
    if number_at(data, 1, 1) is None || number_at(data, 2, 8) is None {
        "pgoutput logical message is truncated"@
    } else {
        match text_at(data, 10) {
            None => "pgoutput logical message has no usable prefix"@,
            Some((_, next)) => match number_at(data, next, 4) {
                None => "pgoutput logical message is truncated"@,
                Some(raw) => {
                    let size = bytes::signed(raw, 4);
                    if size < 0 {
                        "pgoutput logical message has a negative content length"@
                    } else {
                        "pgoutput logical message declares "@ + text::decimal_text(size as nat)
                            + " content bytes but only "@ + text::decimal_text(
                            (data.len() - next - 4) as nat,
                        ) + " remain"@
                    }
                },
            },
        }
    }
}

/// What is told of a message that is cut short or out of shape.
pub open spec fn malformed_text(kind: Seq<char>) -> Seq<char> {
    "pgoutput "@ + kind + " message is truncated or malformed"@
}

/// What is told of bytes that hold no message.
pub open spec fn refusal(data: Seq<u8>) -> Seq<char> {
    if data.len() == 0 {
        "pgoutput message is empty"@
    } else if data[0] == 0x42 {
        malformed_text("Begin"@)
    } else if data[0] == 0x43 {
        malformed_text("Commit"@)
    } else if data[0] == 0x52 {
        malformed_text("Relation"@)
    } else if data[0] == 0x49 {
        malformed_text("Insert"@)
    } else if data[0] == 0x55 {
        malformed_text("Update"@)
    } else if data[0] == 0x44 {
        malformed_text("Delete"@)
    } else if data[0] == 0x54 {
        malformed_text("Truncate"@)
    } else {
        logical_refusal(data)
    }
}

/// What is wrong with the content of an application's message, if anything is.
fn read_logical_message(data: &[u8]) -> (found: Result<PgLogicalMessage, String>)
    requires
        data@.len() > 0,
    ensures
        match found {
            Ok(message) => logical_message_in(data@) == Some(
                MessageView::LogicalMessage {
                    transactional: message.transactional,
                    lsn: message.lsn,
                    prefix: message.prefix@,
                    content: message.content@,
                },
            ) && message.content@.len() <= 0x7fff_ffff,
            Err(reason) => logical_message_in(data@) is None && reason@ == logical_refusal(data@),
        },
{
    let total = data.len();
    let flags = match read_byte(data, 1) {
        Some(flags) => flags,
        None => {
            return Err("pgoutput logical message is truncated".to_owned());
        },
    };
    let lsn = match read_number(data, 2, 8) {
        Some(lsn) => lsn,
        None => {
            return Err("pgoutput logical message is truncated".to_owned());
        },
    };
    let (prefix, next) = match read_text(data, 10) {
        Some(found) => found,
        None => {
            return Err("pgoutput logical message has no usable prefix".to_owned());
        },
    };
    if total - next < 4 {
        return Err("pgoutput logical message is truncated".to_owned());
    }
    let size = bytes::read_i32(data, next);
    if size < 0 {
        return Err("pgoutput logical message has a negative content length".to_owned());
    }
    let left = total - next - 4;
    if (size as usize) > left {
        return Err(
            text::join5(
                "pgoutput logical message declares ",
                text::decimal(size as u64).as_str(),
                " content bytes but only ",
                text::decimal(left as u64).as_str(),
                " remain",
            ),
        );
    }
    let content = copy_part(data, next + 4, next + 4 + size as usize);
    Ok(PgLogicalMessage { transactional: flags % 2 == 1, lsn, prefix, content })
}

fn truncated(kind: &str) -> (error: Error)
    ensures
        error matches Error::SourceError(told) && told@ == malformed_text(kind@),
{
    Error::SourceError(text::join3("pgoutput ", kind, " message is truncated or malformed"))
}

/// Decodes a message; see [`message_in`]. What does not hold one is refused.
pub fn decode_pgoutput_message(data: &[u8]) -> (message: Result<PgOutputMessage, Error>)
    ensures
        match message {
            Ok(message) => message_in(data@) == Some(message@),
            Err(error) => message_in(data@) is None && error is SourceError && error.text()
                == refusal(data@),
        },
        message matches Ok(PgOutputMessage::LogicalMessage(found)) ==> found.content@.len()
            <= 0x7fff_ffff,
{
    let total = data.len();
    if total == 0 {
        return Err(Error::SourceError("pgoutput message is empty".to_owned()));
    }
    let tag = data[0];
    if tag == 0x42 {
        match (read_number(data, 1, 8), read_u32(data, 17)) {
            (Some(final_lsn), Some(xid)) => {
                let commit_timestamp_us = bytes::read_i64(data, 9);
                Ok(PgOutputMessage::Begin(PgBegin { final_lsn, commit_timestamp_us, xid }))
            },
            _ => Err(truncated("Begin")),
        }
    } else if tag == 0x43 {
        match (read_byte(data, 1), read_number(data, 2, 8), read_number(data, 10, 8)) {
            (Some(flags), Some(commit_lsn), Some(end_lsn)) => {
                if total < 26 {
                    return Err(truncated("Commit"));
                }
                let commit_timestamp_us = bytes::read_i64(data, 18);
                Ok(
                    PgOutputMessage::Commit(
                        PgCommit { flags, commit_lsn, end_lsn, commit_timestamp_us },
                    ),
                )
            },
            _ => Err(truncated("Commit")),
        }
    } else if tag == 0x52 {
        match read_relation(data) {
            Some(relation) => Ok(PgOutputMessage::Relation(relation)),
            None => Err(truncated("Relation")),
        }
    } else if tag == 0x49 {
        match (read_u32(data, 1), read_new_image(data, 5)) {
            (Some(relation_oid), Some(new_tuple)) => Ok(
                PgOutputMessage::Insert(PgInsert { relation_oid, new_tuple }),
            ),
            _ => Err(truncated("Insert")),
        }
    } else if tag == 0x55 {
        match (read_u32(data, 1), read_old_image(data, 5)) {
            (Some(relation_oid), Some((key_tuple, old_tuple, next))) => {
                match read_new_image(data, next) {
                    Some(new_tuple) => Ok(
                        PgOutputMessage::Update(
                            PgUpdate { relation_oid, key_tuple, old_tuple, new_tuple },
                        ),
                    ),
                    None => Err(truncated("Update")),
                }
            },
            _ => Err(truncated("Update")),
        }
    } else if tag == 0x44 {
        match (read_u32(data, 1), read_old_image(data, 5)) {
            (Some(relation_oid), Some((key_tuple, old_tuple, _))) => {
                if key_tuple.is_some() || old_tuple.is_some() {
                    Ok(PgOutputMessage::Delete(PgDelete { relation_oid, key_tuple, old_tuple }))
                } else {
                    Err(truncated("Delete"))
                }
            },
            _ => Err(truncated("Delete")),
        }
    } else if tag == 0x54 {
        match read_truncate(data) {
            Some(truncate) => Ok(PgOutputMessage::Truncate(truncate)),
            None => Err(truncated("Truncate")),
        }
    } else if tag == 0x4d {
        match read_logical_message(data) {
            Ok(message) => Ok(PgOutputMessage::LogicalMessage(message)),
            Err(reason) => Err(Error::SourceError(reason)),
        }
    } else {
        Ok(PgOutputMessage::Unknown(tag))
    }
}

} // verus!
