//! Second level: the descriptor assembler.
//!
//! A two-table state machine consumes the classified item stream: Global
//! items overwrite entries of a global table that persists across Main
//! items, Local items collect usages into a local table that is cleared
//! after every Main item, and Main items freeze fields and open or close
//! collections on a stack. The single collection left on the stack at the
//! end of the stream is the descriptor tree.

use vstd::prelude::*;

use crate::basic::{BasicItem, BasicItems, GlobalItem, InputItemData, LocalItem, MainItem};
use crate::collection::{Collection, CollectionItem, SpecCollection, SpecCollectionItem};
use crate::errors::{HidError, MissingItem};
use crate::input::Input;
use crate::report::{Report, ReportType, SpecReport};

verus! {

broadcast use vstd::std_specs::vec::group_vec_axioms, vstd::seq::group_seq_axioms;

/// The global state table: entries persist across Main items until
/// overwritten.
#[derive(Debug, Clone, Copy, PartialEq, Eq, Structural)]
pub struct GlobalItems {
    pub usage_page: Option<u16>,
    pub logical_minimum: Option<i32>,
    pub logical_maximum: Option<i32>,
    pub physical_minimum: Option<i32>,
    pub physical_maximum: Option<i32>,
    pub unit_exponent: Option<u32>,
    pub unit: Option<u32>,
    pub report_size: Option<u32>,
    pub report_id: Option<u8>,
    pub report_count: Option<u32>,
}

/// The empty global table.
pub open spec fn spec_global_empty() -> GlobalItems {
    GlobalItems {
        usage_page: None,
        logical_minimum: None,
        logical_maximum: None,
        physical_minimum: None,
        physical_maximum: None,
        unit_exponent: None,
        unit: None,
        report_size: None,
        report_id: None,
        report_count: None,
    }
}

impl GlobalItems {
    /// A fresh, empty global table.
    pub fn new() -> (r: Self)
        ensures
            r == spec_global_empty(),
    {
        Self {
            usage_page: None,
            logical_minimum: None,
            logical_maximum: None,
            physical_minimum: None,
            physical_maximum: None,
            unit_exponent: None,
            unit: None,
            report_size: None,
            report_id: None,
            report_count: None,
        }
    }
}

/// The local state table: usages collected since the last Main item, as
/// `(page, usage)` pairs whose page is set only by the extended item forms.
#[derive(Debug)]
pub struct LocalItems {
    pub usages: Vec<(Option<u16>, Option<u16>)>,
    pub usage_minimum: (Option<u16>, Option<u16>),
    pub usage_maximum: (Option<u16>, Option<u16>),
    pub designator_index: Option<u32>,
    pub designator_minimum: Option<u32>,
    pub designator_maximum: Option<u32>,
    pub string_index: Option<u32>,
    pub string_minimum: Option<u32>,
    pub string_maximum: Option<u32>,
}

/// The mathematical value of a local state table.
pub struct SpecLocal {
    pub usages: Seq<(Option<u16>, Option<u16>)>,
    pub usage_minimum: (Option<u16>, Option<u16>),
    pub usage_maximum: (Option<u16>, Option<u16>),
    pub designator_index: Option<u32>,
    pub designator_minimum: Option<u32>,
    pub designator_maximum: Option<u32>,
    pub string_index: Option<u32>,
    pub string_minimum: Option<u32>,
    pub string_maximum: Option<u32>,
}

impl View for LocalItems {
    type V = SpecLocal;

    open spec fn view(&self) -> SpecLocal {
        SpecLocal {
            usages: self.usages@,
            usage_minimum: self.usage_minimum,
            usage_maximum: self.usage_maximum,
            designator_index: self.designator_index,
            designator_minimum: self.designator_minimum,
            designator_maximum: self.designator_maximum,
            string_index: self.string_index,
            string_minimum: self.string_minimum,
            string_maximum: self.string_maximum,
        }
    }
}

/// The empty local table.
pub open spec fn spec_local_empty() -> SpecLocal {
    SpecLocal {
        usages: Seq::empty(),
        usage_minimum: (None, None),
        usage_maximum: (None, None),
        designator_index: None,
        designator_minimum: None,
        designator_maximum: None,
        string_index: None,
        string_minimum: None,
        string_maximum: None,
    }
}

impl LocalItems {
    /// A fresh, empty local table.
    pub fn new() -> (r: Self)
        ensures
            r@ == spec_local_empty(),
    {
        let r = Self {
            usages: Vec::new(),
            usage_minimum: (None, None),
            usage_maximum: (None, None),
            designator_index: None,
            designator_minimum: None,
            designator_maximum: None,
            string_index: None,
            string_minimum: None,
            string_maximum: None,
        };
        proof {
            assert(r@.usages =~= spec_local_empty().usages);
        }
        r
    }
}

/// The two state tables the assembler carries.
#[derive(Debug)]
pub struct StateTable {
    pub global: GlobalItems,
    pub local: LocalItems,
}

/// One Global item applied to the global table and the running bit offset:
/// entries are overwritten; a Report ID different from the current one
/// starts an independent report whose bit offsets restart at 0; Push and
/// Pop are not implemented.
pub open spec fn spec_step_global(g: GlobalItems, bit_offset: u32, item: GlobalItem) -> Result<
    (GlobalItems, u32),
    HidError,
> {
    match item {
        GlobalItem::UsagePage(up) => Ok((GlobalItems { usage_page: Some(up), ..g }, bit_offset)),
        GlobalItem::LogicalMinimum(lm) => Ok(
            (GlobalItems { logical_minimum: Some(lm), ..g }, bit_offset),
        ),
        GlobalItem::LogicalMaximum(lm) => Ok(
            (GlobalItems { logical_maximum: Some(lm), ..g }, bit_offset),
        ),
        GlobalItem::PhysicalMinimum(pm) => Ok(
            (GlobalItems { physical_minimum: Some(pm), ..g }, bit_offset),
        ),
        GlobalItem::PhysicalMaximum(pm) => Ok(
            (GlobalItems { physical_maximum: Some(pm), ..g }, bit_offset),
        ),
        GlobalItem::UnitExponent(ue) => Ok(
            (GlobalItems { unit_exponent: Some(ue), ..g }, bit_offset),
        ),
        GlobalItem::Unit(u) => Ok((GlobalItems { unit: Some(u), ..g }, bit_offset)),
        GlobalItem::ReportSize(rs) => Ok((GlobalItems { report_size: Some(rs), ..g }, bit_offset)),
        GlobalItem::ReportID(rid) => Ok(
            (
                GlobalItems { report_id: Some(rid), ..g },
                if g.report_id == Some(rid) {
                    bit_offset
                } else {
                    0
                },
            ),
        ),
        GlobalItem::ReportCount(rc) => Ok(
            (GlobalItems { report_count: Some(rc), ..g }, bit_offset),
        ),
        GlobalItem::Push => Err(HidError::UnsupportedFeature),
        GlobalItem::Pop => Err(HidError::UnsupportedFeature),
        GlobalItem::Reserved => Ok((g, bit_offset)),
    }
}

/// One Local item applied to the local table: usages append, the other
/// entries are overwritten; Delimiter is not implemented.
pub open spec fn spec_step_local(l: SpecLocal, item: LocalItem) -> Result<SpecLocal, HidError> {
    match item {
        LocalItem::Usage(u) => Ok(SpecLocal { usages: l.usages.push((None, Some(u))), ..l }),
        LocalItem::ExtendedUsage(p, u) => Ok(
            SpecLocal { usages: l.usages.push((Some(p), Some(u))), ..l },
        ),
        LocalItem::UsageMinimum(u) => Ok(SpecLocal { usage_minimum: (None, Some(u)), ..l }),
        LocalItem::ExtendedUsageMinimum(p, u) => Ok(
            SpecLocal { usage_minimum: (Some(p), Some(u)), ..l },
        ),
        LocalItem::UsageMaximum(u) => Ok(SpecLocal { usage_maximum: (None, Some(u)), ..l }),
        LocalItem::ExtendedUsageMaximum(p, u) => Ok(
            SpecLocal { usage_maximum: (Some(p), Some(u)), ..l },
        ),
        LocalItem::DesignatorIndex(di) => Ok(SpecLocal { designator_index: Some(di), ..l }),
        LocalItem::DesignatorMinimum(dm) => Ok(SpecLocal { designator_minimum: Some(dm), ..l }),
        LocalItem::DesignatorMaximum(dm) => Ok(SpecLocal { designator_maximum: Some(dm), ..l }),
        LocalItem::StringIndex(si) => Ok(SpecLocal { string_index: Some(si), ..l }),
        LocalItem::StringMinimum(sm) => Ok(SpecLocal { string_minimum: Some(sm), ..l }),
        LocalItem::StringMaximum(sm) => Ok(SpecLocal { string_maximum: Some(sm), ..l }),
        LocalItem::Delimiter(_open) => Err(HidError::UnsupportedFeature),
        LocalItem::Reserved => Ok(l),
    }
}

/// Qualification of a `(page, usage)` slot against the global Usage Page:
/// an empty slot stays absent; a local page wins; a bare usage takes the
/// global page and fails without one; a page without a usage is malformed.
pub open spec fn spec_qualify(page: Option<u16>, usage: (Option<u16>, Option<u16>)) -> Result<
    Option<(u16, u16)>,
    HidError,
> {
    match (page, usage) {
        (_, (None, None)) => Ok(None),
        (_, (Some(p), Some(u))) => Ok(Some((p, u))),
        (Some(p), (None, Some(u))) => Ok(Some((p, u))),
        (None, (None, Some(_u))) => Err(HidError::MissingUsagePage),
        (_, (Some(_p), None)) => Err(HidError::MalformedUsage),
    }
}

/// The whole assembler state: the two tables, the collection stack, the
/// running bit offset of the next field, and whether the root collection
/// has been closed.
pub struct SpecState {
    pub global: GlobalItems,
    pub local: SpecLocal,
    pub stack: Seq<SpecCollection<SpecReport>>,
    pub bit_offset: u32,
    pub closed: bool,
}

/// The assembler's starting state.
pub open spec fn spec_init_state() -> SpecState {
    SpecState {
        global: spec_global_empty(),
        local: spec_local_empty(),
        stack: Seq::empty(),
        bit_offset: 0,
        closed: false,
    }
}

/// The mathematical value of the exec collection stack.
pub open spec fn spec_stack_view(stack: Seq<Collection<Report>>) -> Seq<
    SpecCollection<SpecReport>,
> {
    Seq::new(stack.len(), |i: int| stack[i].deep_view())
}

/// Qualification of every collected local usage, in order; an entry that
/// qualifies to nothing at all is malformed. The earliest failing entry
/// decides the error.
pub open spec fn spec_qualify_usages(
    page: Option<u16>,
    usages: Seq<(Option<u16>, Option<u16>)>,
) -> Result<Seq<(u16, u16)>, HidError>
    decreases usages.len(),
{
    if usages.len() == 0 {
        Ok(Seq::empty())
    } else {
        match spec_qualify_usages(page, usages.drop_last()) {
            Err(e) => Err(e),
            Ok(rest) => match spec_qualify(page, usages.last()) {
                Err(e) => Err(e),
                Ok(None) => Err(HidError::MalformedUsage),
                Ok(Some(q)) => Ok(rest.push(q)),
            },
        }
    }
}

/// Unfolds `spec_qualify_usages` over a prefix extended by one entry.
proof fn lemma_qualify_usages_step(page: Option<u16>, s: Seq<(Option<u16>, Option<u16>)>, i: int)
    requires
        0 <= i < s.len(),
    ensures
        spec_qualify_usages(page, s.take(i + 1)) == match spec_qualify_usages(page, s.take(i)) {
            Err(e) => Err(e),
            Ok(rest) => match spec_qualify(page, s[i]) {
                Err(e) => Err(e),
                Ok(None) => Err(HidError::MalformedUsage),
                Ok(Some(q)) => Ok(rest.push(q)),
            },
        },
{
    assert(s.take(i + 1).drop_last() =~= s.take(i));
    assert(s.take(i + 1).last() == s[i]);
}

/// An error in a prefix of the usages decides the whole qualification.
proof fn lemma_qualify_usages_extend_err(
    page: Option<u16>,
    s: Seq<(Option<u16>, Option<u16>)>,
    i: int,
)
    requires
        0 <= i <= s.len(),
        spec_qualify_usages(page, s.take(i)) is Err,
    ensures
        spec_qualify_usages(page, s) == spec_qualify_usages(page, s.take(i)),
    decreases s.len() - i,
{
    if i == s.len() {
        assert(s.take(i) =~= s);
    } else {
        lemma_qualify_usages_step(page, s, i);
        lemma_qualify_usages_extend_err(page, s, i + 1);
    }
}

/// A Main/Input item freezes a field from the two tables and the running
/// bit offset, appends it to the open collection, advances the offset by
/// the field's bit range, and clears the local table.
pub open spec fn spec_freeze_field(st: SpecState, data: u32) -> Result<SpecState, HidError>
    recommends
        st.stack.len() > 0,
{
    match spec_qualify_usages(st.global.usage_page, st.local.usages) {
        Err(e) => Err(e),
        Ok(usages) => match spec_qualify(st.global.usage_page, st.local.usage_minimum) {
            Err(e) => Err(e),
            Ok(usage_minimum) => match spec_qualify(st.global.usage_page, st.local.usage_maximum) {
                Err(e) => Err(e),
                Ok(usage_maximum) => if st.global.report_size is None {
                    Err(HidError::MissingGlobal(MissingItem::ReportSize))
                } else if st.global.report_count is None {
                    Err(HidError::MissingGlobal(MissingItem::ReportCount))
                } else if st.global.logical_minimum is None {
                    Err(HidError::MissingGlobal(MissingItem::LogicalMinimum))
                } else if st.global.logical_maximum is None {
                    Err(HidError::MissingGlobal(MissingItem::LogicalMaximum))
                } else {
                    let size = st.global.report_size->0;
                    let count = st.global.report_count->0;
                    let lmin = st.global.logical_minimum->0;
                    let lmax = st.global.logical_maximum->0;
                    let constant = crate::report::spec_flag_constant(data);
                    if size < 1 || size > 32 {
                        Err(HidError::InvalidReportSize)
                    } else if lmin > lmax {
                        Err(HidError::InvalidLogicalBounds)
                    } else if !constant && count > 0 && usages.len() == 0
                        && usage_minimum is None {
                        Err(HidError::MalformedUsage)
                    } else if st.bit_offset + count * size > crate::report::spec_offset_limit() {
                        Err(HidError::OffsetOverflow)
                    } else {
                        let field = SpecReport {
                            report_type: ReportType::Input(data),
                            usages,
                            usage_minimum,
                            usage_maximum,
                            logical_minimum: lmin,
                            logical_maximum: lmax,
                            physical_minimum: match st.global.physical_minimum {
                                Some(p) => p,
                                None => lmin,
                            },
                            physical_maximum: match st.global.physical_maximum {
                                Some(p) => p,
                                None => lmax,
                            },
                            unit: st.global.unit,
                            unit_exponent: st.global.unit_exponent,
                            bit_offset: st.bit_offset as usize,
                            report_id: st.global.report_id,
                            report_size: size,
                            report_count: count,
                        };
                        let l = st.stack.len();
                        let top = st.stack.last();
                        let top2 = SpecCollection {
                            items: top.items.push(SpecCollectionItem::Item(field)),
                            ..top
                        };
                        Ok(
                            SpecState {
                                local: spec_local_empty(),
                                stack: st.stack.update(l - 1, top2),
                                bit_offset: (st.bit_offset + count * size) as u32,
                                ..st
                            },
                        )
                    }
                },
            },
        },
    }
}

/// One Main item applied to the whole state: Input freezes a field,
/// Collection opens a child, EndCollection closes one (closing the root
/// ends the stream), Output, Feature and reserved Main items are skipped;
/// every Main item clears the local table.
pub open spec fn spec_step_main(st: SpecState, item: MainItem) -> Result<SpecState, HidError> {
    match item {
        MainItem::Input(input) => if st.stack.len() == 0 {
            Err(HidError::UnbalancedCollections)
        } else {
            spec_freeze_field(st, input.data)
        },
        MainItem::Collection(ctype) => if st.local.usages.len() != 1 {
            Err(HidError::MalformedUsage)
        } else {
            match spec_qualify(st.global.usage_page, st.local.usages[0]) {
                Err(e) => Err(e),
                Ok(None) => Err(HidError::MalformedUsage),
                Ok(Some(usage)) => Ok(
                    SpecState {
                        local: spec_local_empty(),
                        stack: st.stack.push(
                            SpecCollection {
                                collection_type: ctype,
                                usage,
                                designator_index: None,
                                string_index: None,
                                items: Seq::empty(),
                            },
                        ),
                        ..st
                    },
                ),
            }
        },
        MainItem::EndCollection => if st.stack.len() == 0 {
            Err(HidError::UnbalancedCollections)
        } else if st.stack.len() == 1 {
            Ok(SpecState { local: spec_local_empty(), closed: true, ..st })
        } else {
            let l = st.stack.len();
            let top = st.stack.last();
            let parent = st.stack[l - 2];
            let parent2 = SpecCollection {
                items: parent.items.push(SpecCollectionItem::Collection(top)),
                ..parent
            };
            Ok(
                SpecState {
                    local: spec_local_empty(),
                    stack: st.stack.drop_last().update(l - 2, parent2),
                    ..st
                },
            )
        },
        MainItem::Output(_d) => Ok(SpecState { local: spec_local_empty(), ..st }),
        MainItem::Feature(_d) => Ok(SpecState { local: spec_local_empty(), ..st }),
        MainItem::Reserved => Ok(SpecState { local: spec_local_empty(), ..st }),
    }
}

/// One classified item applied to the whole state. Once the root
/// collection has closed, any further item is a trailing item and an
/// error.
pub open spec fn spec_step(st: SpecState, item: BasicItem) -> Result<SpecState, HidError> {
    if st.closed {
        Err(HidError::UnbalancedCollections)
    } else {
        match item {
            BasicItem::Global(g) => match spec_step_global(st.global, st.bit_offset, g) {
                Err(e) => Err(e),
                Ok((g2, off2)) => Ok(SpecState { global: g2, bit_offset: off2, ..st }),
            },
            BasicItem::Local(l) => match spec_step_local(st.local, l) {
                Err(e) => Err(e),
                Ok(l2) => Ok(SpecState { local: l2, ..st }),
            },
            BasicItem::Main(m) => spec_step_main(st, m),
            BasicItem::Reserved => Ok(st),
        }
    }
}

/// The machine run over a sequence of classified items, from a given
/// state: the state after all of them, or the first error.
pub open spec fn spec_run(st: SpecState, items: Seq<BasicItem>) -> Result<SpecState, HidError>
    decreases items.len(),
{
    if items.len() == 0 {
        Ok(st)
    } else {
        match spec_step(st, items[0]) {
            Err(e) => Err(e),
            Ok(st2) => spec_run(st2, items.drop_first()),
        }
    }
}

/// Assembly of a whole classified item sequence: run the machine from the
/// empty state; exactly one collection must remain on the stack, and it is
/// the descriptor tree.
pub open spec fn spec_assemble(items: Seq<BasicItem>) -> Result<
    SpecCollection<SpecReport>,
    HidError,
> {
    match spec_run(spec_init_state(), items) {
        Err(e) => Err(e),
        Ok(st) => if st.stack.len() == 1 {
            Ok(st.stack[0])
        } else {
            Err(HidError::UnbalancedCollections)
        },
    }
}

/// The classified form of a tokenized item sequence.
pub open spec fn spec_classified_items(raw: Seq<crate::basic::RawItem>) -> Seq<BasicItem> {
    raw.map_values(|it: crate::basic::RawItem| crate::basic::spec_classify(it))
}

/// Parsing a descriptor from byte offset `off` on: tokenize, classify,
/// assemble.
pub open spec fn spec_parse_from(bytes: Seq<u8>, off: int) -> Result<
    SpecCollection<SpecReport>,
    HidError,
> {
    match crate::basic::spec_tokenize_from(bytes, off) {
        Err(e) => Err(e),
        Ok(raw) => spec_assemble(spec_classified_items(raw)),
    }
}

/// Parsing a whole descriptor.
pub open spec fn spec_parse_descriptor(bytes: Seq<u8>) -> Result<
    SpecCollection<SpecReport>,
    HidError,
> {
    spec_parse_from(bytes, 0)
}

/// Unfolds the machine run over a sequence extended by one item at the
/// end.
proof fn lemma_run_snoc(st: SpecState, items: Seq<BasicItem>, item: BasicItem)
    ensures
        spec_run(st, items.push(item)) == (match spec_run(st, items) {
            Err(e) => Err(e),
            Ok(st2) => spec_step(st2, item),
        }),
    decreases items.len(),
{
    reveal_with_fuel(spec_run, 3);
    if items.len() == 0 {
        assert(items.push(item)[0] == item);
        assert(items.push(item).drop_first() =~= Seq::<BasicItem>::empty());
    } else {
        assert(items.push(item)[0] == items[0]);
        assert(items.push(item).drop_first() =~= items.drop_first().push(item));
        match spec_step(st, items[0]) {
            Err(_e) => {},
            Ok(st2) => {
                lemma_run_snoc(st2, items.drop_first(), item);
            },
        }
    }
}

/// An error while running a prefix decides the whole run.
proof fn lemma_run_err_extend(st: SpecState, items: Seq<BasicItem>, i: int)
    requires
        0 <= i <= items.len(),
        spec_run(st, items.take(i)) is Err,
    ensures
        spec_run(st, items) == spec_run(st, items.take(i)),
    decreases items.len() - i,
{
    if i == items.len() {
        assert(items.take(i) =~= items);
    } else {
        assert(items.take(i + 1) =~= items.take(i).push(items[i]));
        lemma_run_snoc(st, items.take(i), items[i]);
        lemma_run_err_extend(st, items, i + 1);
    }
}

// ---------------------------------------------------------------------------
// Well-formedness of assembled trees
// ---------------------------------------------------------------------------

/// Every field in a sequence of children is well-formed.
pub open spec fn spec_items_wf(items: Seq<SpecCollectionItem<SpecReport>>) -> bool
    decreases items,
{
    if items.len() == 0 {
        true
    } else {
        spec_items_wf(items.drop_last()) && spec_item_wf(items.last())
    }
}

/// A well-formed child: a well-formed subtree or a well-formed field.
pub open spec fn spec_item_wf(item: SpecCollectionItem<SpecReport>) -> bool
    decreases item,
{
    match item {
        SpecCollectionItem::Collection(c) => spec_collection_wf(c),
        SpecCollectionItem::Item(f) => crate::report::spec_report_wf(f),
    }
}

/// Every field in a tree is well-formed.
pub open spec fn spec_collection_wf(c: SpecCollection<SpecReport>) -> bool
    decreases c,
{
    spec_items_wf(c.items)
}

/// Every collection on the assembler's stack is well-formed.
pub open spec fn spec_state_wf(st: SpecState) -> bool {
    forall|i: int| 0 <= i < st.stack.len() ==> spec_collection_wf(#[trigger] st.stack[i])
}

/// Appending a child preserves and requires exactly its well-formedness.
proof fn lemma_items_wf_push(items: Seq<SpecCollectionItem<SpecReport>>, x: SpecCollectionItem<
    SpecReport,
>)
    ensures
        spec_items_wf(items.push(x)) == (spec_items_wf(items) && spec_item_wf(x)),
{
    assert(items.push(x).drop_last() =~= items);
    assert(items.push(x).last() == x);
}

/// Every child of a well-formed sequence is well-formed.
proof fn lemma_items_wf_index(items: Seq<SpecCollectionItem<SpecReport>>, i: int)
    requires
        spec_items_wf(items),
        0 <= i < items.len(),
    ensures
        spec_item_wf(items[i]),
    decreases items.len(),
{
    if i == items.len() - 1 {
    } else {
        assert(items.drop_last()[i] == items[i]);
        lemma_items_wf_index(items.drop_last(), i);
    }
}

/// One machine step preserves the well-formedness of the stack.
proof fn lemma_step_wf(st: SpecState, item: BasicItem)
    requires
        spec_state_wf(st),
        spec_step(st, item) is Ok,
    ensures
        spec_state_wf(spec_step(st, item)->Ok_0),
{
    let st2 = spec_step(st, item)->Ok_0;
    match item {
        BasicItem::Main(m) => {
            match m {
                MainItem::Input(input) => {
                    let l = st.stack.len();
                    let top = st.stack.last();
                    assert(spec_collection_wf(st.stack[l - 1]));
                    match spec_freeze_field(st, input.data) {
                        Ok(_) => {
                            let new_field = st2.stack[l - 1].items.last();
                            lemma_items_wf_push(top.items, new_field);
                            assert(spec_item_wf(new_field));
                            assert forall|i: int| 0 <= i < st2.stack.len() implies spec_collection_wf(
                                #[trigger] st2.stack[i],
                            ) by {
                                if i < l - 1 {
                                    assert(st2.stack[i] == st.stack[i]);
                                }
                            }
                        },
                        Err(_) => {},
                    }
                },
                MainItem::Collection(_c) => {
                    let fresh = st2.stack.last();
                    assert(spec_items_wf(fresh.items));
                    assert forall|i: int| 0 <= i < st2.stack.len() implies spec_collection_wf(
                        #[trigger] st2.stack[i],
                    ) by {
                        if i < st2.stack.len() - 1 {
                            assert(st2.stack[i] == st.stack[i]);
                        }
                    }
                },
                MainItem::EndCollection => {
                    let l = st.stack.len();
                    if l >= 2 {
                        let top = st.stack.last();
                        let parent = st.stack[l - 2];
                        lemma_items_wf_push(parent.items, SpecCollectionItem::Collection(top));
                        assert forall|i: int| 0 <= i < st2.stack.len() implies spec_collection_wf(
                            #[trigger] st2.stack[i],
                        ) by {
                            if i != l - 2 {
                                assert(st2.stack[i] == st.stack[i]);
                            }
                        }
                    }
                },
                MainItem::Output(_d) => {},
                MainItem::Feature(_d) => {},
                MainItem::Reserved => {},
            }
        },
        BasicItem::Global(_g) => {},
        BasicItem::Local(_l) => {},
        BasicItem::Reserved => {},
    }
}

/// A whole machine run preserves the well-formedness of the stack.
proof fn lemma_run_wf(st: SpecState, items: Seq<BasicItem>)
    requires
        spec_state_wf(st),
        spec_run(st, items) is Ok,
    ensures
        spec_state_wf(spec_run(st, items)->Ok_0),
    decreases items.len(),
{
    if items.len() > 0 {
        lemma_step_wf(st, items[0]);
        lemma_run_wf(spec_step(st, items[0])->Ok_0, items.drop_first());
    }
}

/// A tree assembled from a descriptor has only well-formed fields.
pub proof fn lemma_parse_from_wf(bytes: Seq<u8>, off: int)
    requires
        spec_parse_from(bytes, off) is Ok,
    ensures
        spec_collection_wf(spec_parse_from(bytes, off)->Ok_0),
{
    let raw = crate::basic::spec_tokenize_from(bytes, off)->Ok_0;
    let citems = spec_classified_items(raw);
    lemma_run_wf(spec_init_state(), citems);
}

// ---------------------------------------------------------------------------
// Report decoding over the tree
// ---------------------------------------------------------------------------

/// Whether any field among these children carries a Report ID.
pub open spec fn spec_items_has_report_id(items: Seq<SpecCollectionItem<SpecReport>>) -> bool
    decreases items,
{
    if items.len() == 0 {
        false
    } else {
        spec_items_has_report_id(items.drop_last()) || spec_item_has_report_id(items.last())
    }
}

/// Whether a child carries a Report ID.
pub open spec fn spec_item_has_report_id(item: SpecCollectionItem<SpecReport>) -> bool
    decreases item,
{
    match item {
        SpecCollectionItem::Collection(c) => spec_tree_has_report_id(c),
        SpecCollectionItem::Item(f) => f.report_id is Some,
    }
}

/// Whether any field of the tree carries a Report ID.
pub open spec fn spec_tree_has_report_id(c: SpecCollection<SpecReport>) -> bool
    decreases c,
{
    spec_items_has_report_id(c.items)
}

/// Whether any field among these children carries the given Report ID.
pub open spec fn spec_items_matches_id(
    items: Seq<SpecCollectionItem<SpecReport>>,
    id: u8,
) -> bool
    decreases items,
{
    if items.len() == 0 {
        false
    } else {
        spec_items_matches_id(items.drop_last(), id) || spec_item_matches_id(items.last(), id)
    }
}

/// Whether a child carries the given Report ID.
pub open spec fn spec_item_matches_id(item: SpecCollectionItem<SpecReport>, id: u8) -> bool
    decreases item,
{
    match item {
        SpecCollectionItem::Collection(c) => spec_tree_matches_id(c, id),
        SpecCollectionItem::Item(f) => f.report_id == Some(id),
    }
}

/// Whether any field of the tree carries the given Report ID.
pub open spec fn spec_tree_matches_id(c: SpecCollection<SpecReport>, id: u8) -> bool
    decreases c,
{
    spec_items_matches_id(c.items, id)
}

/// Decoding the children of a collection: subtrees are decoded in place;
/// a field is decoded at bit `base` unless a Report ID selection is active
/// and the field's ID differs, in which case the field is dropped.
pub open spec fn spec_decode_items(
    items: Seq<SpecCollectionItem<SpecReport>>,
    bytes: Seq<u8>,
    sel: Option<u8>,
    base: int,
) -> Result<Seq<SpecCollectionItem<Seq<Input>>>, HidError>
    decreases items,
{
    if items.len() == 0 {
        Ok(Seq::empty())
    } else {
        match spec_decode_items(items.drop_last(), bytes, sel, base) {
            Err(e) => Err(e),
            Ok(rest) => match items.last() {
                SpecCollectionItem::Collection(c) => match spec_decode_tree(c, bytes, sel, base) {
                    Err(e) => Err(e),
                    Ok(dc) => Ok(rest.push(SpecCollectionItem::Collection(dc))),
                },
                SpecCollectionItem::Item(f) => if sel is Some && f.report_id != sel {
                    Ok(rest)
                } else {
                    match crate::report::spec_parse_report(f, bytes, base) {
                        Err(e) => Err(e),
                        Ok(inputs) => Ok(rest.push(SpecCollectionItem::Item(inputs))),
                    }
                },
            },
        }
    }
}

/// Decoding a whole subtree against a report buffer.
pub open spec fn spec_decode_tree(
    c: SpecCollection<SpecReport>,
    bytes: Seq<u8>,
    sel: Option<u8>,
    base: int,
) -> Result<SpecCollection<Seq<Input>>, HidError>
    decreases c,
{
    match spec_decode_items(c.items, bytes, sel, base) {
        Err(e) => Err(e),
        Ok(di) => Ok(
            SpecCollection {
                collection_type: c.collection_type,
                usage: c.usage,
                designator_index: c.designator_index,
                string_index: c.string_index,
                items: di,
            },
        ),
    }
}

/// Decoding a report buffer against a descriptor tree. When any field of
/// the tree carries a Report ID, the buffer's first byte is the present ID:
/// only fields with that ID are decoded, against a payload that starts at
/// bit 8, and an ID no field carries is an error. Without Report IDs the
/// buffer is unprefixed.
pub open spec fn spec_parse_input(c: SpecCollection<SpecReport>, bytes: Seq<u8>) -> Result<
    SpecCollection<Seq<Input>>,
    HidError,
> {
    if spec_tree_has_report_id(c) {
        if bytes.len() == 0 {
            Err(HidError::ReportTooShort)
        } else if !spec_tree_matches_id(c, bytes[0]) {
            Err(HidError::ReportIdMismatch)
        } else {
            spec_decode_tree(c, bytes, Some(bytes[0]), 8)
        }
    } else {
        spec_decode_tree(c, bytes, None, 0)
    }
}

/// An error while decoding a prefix of the children decides the whole
/// sequence.
proof fn lemma_decode_items_extend_err(
    items: Seq<SpecCollectionItem<SpecReport>>,
    bytes: Seq<u8>,
    sel: Option<u8>,
    base: int,
    i: int,
)
    requires
        0 <= i <= items.len(),
        spec_decode_items(items.take(i), bytes, sel, base) is Err,
    ensures
        spec_decode_items(items, bytes, sel, base) == spec_decode_items(
            items.take(i),
            bytes,
            sel,
            base,
        ),
    decreases items.len() - i,
{
    if i == items.len() {
        assert(items.take(i) =~= items);
    } else {
        assert(items.take(i + 1).drop_last() =~= items.take(i));
        assert(items.take(i + 1).last() == items[i]);
        lemma_decode_items_extend_err(items, bytes, sel, base, i + 1);
    }
}

/// Whether any field of the tree carries a Report ID.
fn tree_has_report_id(c: &Collection<Report>) -> (r: bool)
    ensures
        r == spec_tree_has_report_id(c.deep_view()),
    decreases *c,
{
    let ghost dvi = crate::collection::deep_view_items(c.items@);
    proof {
        crate::collection::lemma_deep_view_items(c.items@);
    }
    let mut found = false;
    let mut i: usize = 0;
    while i < c.items.len()
        invariant
            dvi == crate::collection::deep_view_items(c.items@),
            dvi.len() == c.items@.len(),
            0 <= i <= c.items@.len(),
            found == spec_items_has_report_id(dvi.take(i as int)),
        decreases c.items@.len() - i,
    {
        proof {
            crate::collection::lemma_deep_view_items(c.items@);
            assert(dvi[i as int] == c.items@[i as int].deep_view());
            assert(dvi.take(i + 1).drop_last() =~= dvi.take(i as int));
            assert(dvi.take(i + 1).last() == dvi[i as int]);
        }
        match &c.items[i] {
            CollectionItem::Collection(sub) => {
                proof {
                    assert(c.items@[i as int] == CollectionItem::Collection(*sub));
                    assert(dvi[i as int] == SpecCollectionItem::Collection(sub.deep_view()));
                }
                if tree_has_report_id(sub) {
                    found = true;
                }
            },
            CollectionItem::Item(f) => {
                proof {
                    assert(c.items@[i as int] == CollectionItem::Item(*f));
                    assert(dvi[i as int] == SpecCollectionItem::Item(f@));
                }
                if f.report_id.is_some() {
                    found = true;
                }
            },
        }
        proof {
            assert(spec_items_has_report_id(dvi.take(i + 1)) == (spec_items_has_report_id(
                dvi.take(i as int),
            ) || spec_item_has_report_id(dvi[i as int])));
        }
        i = i + 1;
    }
    proof {
        assert(dvi.take(c.items@.len() as int) =~= dvi);
    }
    found
}

/// Whether any field of the tree carries the given Report ID.
fn tree_matches_id(c: &Collection<Report>, id: u8) -> (r: bool)
    ensures
        r == spec_tree_matches_id(c.deep_view(), id),
    decreases *c,
{
    let ghost dvi = crate::collection::deep_view_items(c.items@);
    proof {
        crate::collection::lemma_deep_view_items(c.items@);
    }
    let mut found = false;
    let mut i: usize = 0;
    while i < c.items.len()
        invariant
            dvi == crate::collection::deep_view_items(c.items@),
            dvi.len() == c.items@.len(),
            0 <= i <= c.items@.len(),
            found == spec_items_matches_id(dvi.take(i as int), id),
        decreases c.items@.len() - i,
    {
        proof {
            crate::collection::lemma_deep_view_items(c.items@);
            assert(dvi[i as int] == c.items@[i as int].deep_view());
            assert(dvi.take(i + 1).drop_last() =~= dvi.take(i as int));
            assert(dvi.take(i + 1).last() == dvi[i as int]);
        }
        match &c.items[i] {
            CollectionItem::Collection(sub) => {
                if tree_matches_id(sub, id) {
                    found = true;
                }
            },
            CollectionItem::Item(f) => {
                match f.report_id {
                    Some(fid) => {
                        if fid == id {
                            found = true;
                        }
                    },
                    None => (),
                }
            },
        }
        proof {
            assert(spec_items_matches_id(dvi.take(i + 1), id) == (spec_items_matches_id(
                dvi.take(i as int),
                id,
            ) || spec_item_matches_id(dvi[i as int], id)));
        }
        i = i + 1;
    }
    proof {
        assert(dvi.take(c.items@.len() as int) =~= dvi);
    }
    found
}

/// Decodes a subtree against a report buffer, dropping fields that a
/// Report ID selection excludes.
fn decode_collection(c: &Collection<Report>, report: &[u8], sel: Option<u8>, base: u32) -> (r:
    Result<Collection<Vec<Input>>, HidError>)
    requires
        spec_collection_wf(c.deep_view()),
        base == 0 || base == 8,
    ensures
        match spec_decode_tree(c.deep_view(), report@, sel, base as int) {
            Ok(t) => r is Ok && (r->Ok_0).deep_view() == t,
            Err(e) => r is Err && r->Err_0 == e,
        },
    decreases *c,
{
    let ghost dvi = crate::collection::deep_view_items(c.items@);
    let mut out: Vec<CollectionItem<Vec<Input>>> = Vec::new();
    let mut i: usize = 0;
    proof {
        crate::collection::lemma_deep_view_items(c.items@);
        assert(dvi.take(0) =~= Seq::<SpecCollectionItem<SpecReport>>::empty());
        assert(crate::collection::deep_view_items(out@) =~= Seq::<
            SpecCollectionItem<Seq<Input>>,
        >::empty());
    }
    while i < c.items.len()
        invariant
            spec_collection_wf(c.deep_view()),
            base == 0 || base == 8,
            dvi == crate::collection::deep_view_items(c.items@),
            dvi.len() == c.items@.len(),
            0 <= i <= c.items@.len(),
            spec_decode_items(dvi.take(i as int), report@, sel, base as int) == Ok::<_, HidError>(
                crate::collection::deep_view_items(out@),
            ),
        decreases c.items@.len() - i,
    {
        proof {
            crate::collection::lemma_deep_view_items(c.items@);
            assert(dvi[i as int] == c.items@[i as int].deep_view());
            assert(dvi.take(i + 1).drop_last() =~= dvi.take(i as int));
            assert(dvi.take(i + 1).last() == dvi[i as int]);
            lemma_items_wf_index(dvi, i as int);
        }
        let ghost out_old = out@;
        match &c.items[i] {
            CollectionItem::Collection(sub) => {
                match decode_collection(sub, report, sel, base) {
                    Ok(dc) => {
                        let ghost dc_view = dc.deep_view();
                        out.push(CollectionItem::Collection(dc));
                        proof {
                            assert(out@.drop_last() =~= out_old);
                            assert(out@.last().deep_view() == SpecCollectionItem::Collection(
                                dc_view,
                            ));
                            assert(crate::collection::deep_view_items(out@)
                                == crate::collection::deep_view_items(out_old).push(
                                SpecCollectionItem::Collection(dc_view),
                            ));
                        }
                    },
                    Err(e) => {
                        proof {
                            lemma_decode_items_extend_err(
                                dvi,
                                report@,
                                sel,
                                base as int,
                                i + 1,
                            );
                        }
                        return Err(e);
                    },
                }
            },
            CollectionItem::Item(f) => {
                let selected = match (sel, f.report_id) {
                    (Some(id), Some(fid)) => id == fid,
                    (Some(_id), None) => false,
                    (None, _fid) => true,
                };
                if selected {
                    match f.parse_at(report, base) {
                        Ok(v) => {
                            let ghost v_view = v@;
                            out.push(CollectionItem::Item(v));
                            proof {
                                assert(out@.drop_last() =~= out_old);
                                assert(out@.last().deep_view() == SpecCollectionItem::Item(v_view));
                                assert(crate::collection::deep_view_items(out@)
                                    == crate::collection::deep_view_items(out_old).push(
                                    SpecCollectionItem::Item(v_view),
                                ));
                            }
                        },
                        Err(e) => {
                            proof {
                                lemma_decode_items_extend_err(
                                    dvi,
                                    report@,
                                    sel,
                                    base as int,
                                    i + 1,
                                );
                            }
                            return Err(e);
                        },
                    }
                }
            },
        }
        i = i + 1;
    }
    proof {
        assert(dvi.take(c.items@.len() as int) =~= dvi);
    }
    Ok(
        Collection {
            collection_type: c.collection_type,
            usage: c.usage,
            designator_index: c.designator_index,
            string_index: c.string_index,
            items: out,
        },
    )
}

/// A Main/Input item freezes the next field at the running bit offset and
/// advances the offset by exactly `report_count * report_size` bits.
pub proof fn lemma_input_advances_offset(st: SpecState, data: u32)
    requires
        st.stack.len() > 0,
        spec_freeze_field(st, data) is Ok,
    ensures
        ({
            let st2 = spec_freeze_field(st, data)->Ok_0;
            let field = st2.stack.last().items.last()->Item_0;
            &&& st2.stack.len() == st.stack.len()
            &&& st2.stack.last().items.len() == st.stack.last().items.len() + 1
            &&& st2.stack.last().items.last() is Item
            &&& field.bit_offset == st.bit_offset
            &&& field.report_size == st.global.report_size->0
            &&& field.report_count == st.global.report_count->0
            &&& st2.bit_offset == st.bit_offset + field.report_count * field.report_size
        }),
{
}

/// The items that describe one field each: a Report Size and a Report
/// Count entry followed by a constant Input item.
pub open spec fn spec_input_run(pairs: Seq<(u32, u32)>) -> Seq<BasicItem>
    decreases pairs.len(),
{
    if pairs.len() == 0 {
        Seq::empty()
    } else {
        seq![
            BasicItem::Global(GlobalItem::ReportSize(pairs[0].0)),
            BasicItem::Global(GlobalItem::ReportCount(pairs[0].1)),
            BasicItem::Main(MainItem::Input(InputItemData { data: 1 })),
        ] + spec_input_run(pairs.drop_first())
    }
}

/// The bits the first `k` fields occupy: the sum of size times count over
/// them.
pub open spec fn spec_offset_sum(pairs: Seq<(u32, u32)>, k: int) -> int
    decreases k,
{
    if k <= 0 {
        0
    } else {
        spec_offset_sum(pairs, k - 1) + pairs[k - 1].0 * pairs[k - 1].1
    }
}

proof fn lemma_offset_sum_shift(pairs: Seq<(u32, u32)>, k: int)
    requires
        pairs.len() > 0,
        0 <= k,
        k + 1 <= pairs.len(),
    ensures
        spec_offset_sum(pairs, k + 1) == pairs[0].0 * pairs[0].1 + spec_offset_sum(
            pairs.drop_first(),
            k,
        ),
    decreases k,
{
    reveal_with_fuel(spec_offset_sum, 3);
    if k == 0 {
    } else {
        lemma_offset_sum_shift(pairs, k - 1);
        assert(pairs.drop_first()[k - 1] == pairs[k]);
    }
}

proof fn lemma_offset_sum_monotone(pairs: Seq<(u32, u32)>, k1: int, k2: int)
    requires
        0 <= k1 <= k2,
    ensures
        spec_offset_sum(pairs, k1) <= spec_offset_sum(pairs, k2),
    decreases k2 - k1,
{
    if k1 < k2 {
        lemma_offset_sum_monotone(pairs, k1, k2 - 1);
        vstd::arithmetic::mul::lemma_mul_nonnegative(
            pairs[k2 - 1].0 as int,
            pairs[k2 - 1].1 as int,
        );
    }
}

/// Offset arithmetic: running a sequence of Input items with given sizes
/// and counts from a state whose local table is clear, the k-th frozen
/// field starts exactly at the running offset plus the bits of the fields
/// frozen before it.
#[verifier::rlimit(50)]
#[verifier::spinoff_prover]
pub proof fn lemma_offset_arithmetic(st: SpecState, pairs: Seq<(u32, u32)>)
    requires
        !st.closed,
        st.stack.len() > 0,
        st.local == spec_local_empty(),
        st.global.logical_minimum is Some,
        st.global.logical_maximum is Some,
        st.global.logical_minimum->0 <= st.global.logical_maximum->0,
        forall|j: int| 0 <= j < pairs.len() ==> 1 <= (#[trigger] pairs[j]).0 <= 32,
        st.bit_offset + spec_offset_sum(pairs, pairs.len() as int)
            <= crate::report::spec_offset_limit(),
    ensures
        ({
            let r = spec_run(st, spec_input_run(pairs));
            let old_items = st.stack.last().items;
            &&& r is Ok
            &&& r->Ok_0.stack.len() == st.stack.len()
            &&& r->Ok_0.stack.last().items.len() == old_items.len() + pairs.len()
            &&& r->Ok_0.stack.last().items.take(old_items.len() as int) == old_items
            &&& forall|k: int|
                0 <= k < pairs.len() ==> {
                    let it = #[trigger] r->Ok_0.stack.last().items[old_items.len() + k];
                    &&& it is Item
                    &&& it->Item_0.bit_offset == st.bit_offset + spec_offset_sum(pairs, k)
                    &&& it->Item_0.report_size == pairs[k].0
                    &&& it->Item_0.report_count == pairs[k].1
                }
        }),
    decreases pairs.len(),
{
    reveal_with_fuel(spec_run, 5);
    reveal_with_fuel(spec_offset_sum, 3);
    let items = spec_input_run(pairs);
    let old_items = st.stack.last().items;
    if pairs.len() == 0 {
        assert(st.stack.last().items.take(old_items.len() as int) =~= old_items);
    } else {
        let s0 = pairs[0].0;
        let c0 = pairs[0].1;
        let a = BasicItem::Global(GlobalItem::ReportSize(s0));
        let b = BasicItem::Global(GlobalItem::ReportCount(c0));
        let c = BasicItem::Main(MainItem::Input(InputItemData { data: 1 }));
        let rest = spec_input_run(pairs.drop_first());
        assert(items[0] == a);
        assert(items.drop_first() =~= seq![b, c] + rest);
        assert((seq![b, c] + rest)[0] == b);
        assert((seq![b, c] + rest).drop_first() =~= seq![c] + rest);
        assert((seq![c] + rest)[0] == c);
        assert((seq![c] + rest).drop_first() =~= rest);

        let st1 = spec_step(st, a)->Ok_0;
        assert(st1 == SpecState {
            global: GlobalItems { report_size: Some(s0), ..st.global },
            ..st
        });
        let st2 = spec_step(st1, b)->Ok_0;
        assert(st2 == SpecState {
            global: GlobalItems { report_count: Some(c0), ..st1.global },
            ..st1
        });

        // the freeze of the first field succeeds
        lemma_offset_sum_monotone(pairs, 1, pairs.len() as int);
        vstd::arithmetic::mul::lemma_mul_nonnegative(s0 as int, c0 as int);
        vstd::arithmetic::mul::lemma_mul_is_commutative(s0 as int, c0 as int);
        assert(spec_qualify_usages(st2.global.usage_page, st2.local.usages) == Ok::<
            _,
            HidError,
        >(Seq::<(u16, u16)>::empty()));
        assert(spec_offset_sum(pairs, 0) == 0);
        assert(spec_offset_sum(pairs, 1) == spec_offset_sum(pairs, 0) + pairs[0].0 * pairs[0].1);
        assert(st.bit_offset + spec_offset_sum(pairs, 1) <= crate::report::spec_offset_limit());
        assert(st2.bit_offset == st.bit_offset);
        assert(st2.bit_offset + c0 * s0 <= crate::report::spec_offset_limit());
        assert(crate::report::spec_flag_constant(1u32)) by (bit_vector);
        assert(spec_freeze_field(st2, 1) is Ok);
        let st3 = spec_freeze_field(st2, 1)->Ok_0;
        lemma_input_advances_offset(st2, 1);
        vstd::arithmetic::mul::lemma_mul_is_commutative(c0 as int, s0 as int);
        let field0 = st3.stack.last().items.last()->Item_0;

        lemma_offset_sum_shift(pairs, 0);
        assert(spec_offset_sum(pairs.drop_first(), pairs.drop_first().len() as int)
            == spec_offset_sum(pairs, pairs.len() as int) - s0 * c0) by {
            lemma_offset_sum_shift(pairs, pairs.len() - 1);
        }
        assert(forall|j: int|
            0 <= j < pairs.drop_first().len() ==> 1 <= (#[trigger] pairs.drop_first()[j]).0
                <= 32) by {
            assert(forall|j: int|
                0 <= j < pairs.drop_first().len() ==> pairs.drop_first()[j] == pairs[j + 1]);
        }
        lemma_offset_arithmetic(st3, pairs.drop_first());

        let r = spec_run(st3, rest)->Ok_0;
        let mid_items = st3.stack.last().items;
        assert(mid_items == old_items.push(SpecCollectionItem::Item(field0)));
        assert(r.stack.last().items.take(old_items.len() as int) =~= old_items) by {
            assert(r.stack.last().items.take(mid_items.len() as int) == mid_items);
            assert(forall|j: int|
                0 <= j < old_items.len() ==> r.stack.last().items.take(mid_items.len() as int)[j]
                    == r.stack.last().items[j]);
        }
        assert(spec_run(st, items) == spec_run(st3, rest));
        assert forall|k: int| 0 <= k < pairs.len() implies {
            let it = #[trigger] spec_run(st, items)->Ok_0.stack.last().items[old_items.len() + k];
            &&& it is Item
            &&& it->Item_0.bit_offset == st.bit_offset + spec_offset_sum(pairs, k)
            &&& it->Item_0.report_size == pairs[k].0
            &&& it->Item_0.report_count == pairs[k].1
        } by {
            if k == 0 {
                assert(r.stack.last().items.take(mid_items.len() as int)[old_items.len() as int]
                    == r.stack.last().items[old_items.len() as int]);
                assert(mid_items[old_items.len() as int] == SpecCollectionItem::Item(field0));
                assert(r.stack.last().items[old_items.len() as int] == SpecCollectionItem::Item(
                    field0,
                ));
            } else {
                let j = k - 1;
                let itj = r.stack.last().items[mid_items.len() + j];
                assert(itj is Item && itj->Item_0.bit_offset == st3.bit_offset + spec_offset_sum(
                    pairs.drop_first(),
                    j,
                ) && itj->Item_0.report_size == pairs.drop_first()[j].0 && itj->Item_0.report_count
                    == pairs.drop_first()[j].1);
                assert(mid_items.len() + j == old_items.len() + k);
                lemma_offset_sum_shift(pairs, j);
                assert(pairs.drop_first()[j] == pairs[k]);
                assert(st3.bit_offset == st.bit_offset + c0 * s0);
                vstd::arithmetic::mul::lemma_mul_is_commutative(c0 as int, s0 as int);
                assert(itj->Item_0.bit_offset == st.bit_offset + spec_offset_sum(pairs, k));
            }
        }
    }
}

/// Local reset: after any Main item that the machine accepts, the local
/// state table equals the empty local table.
pub proof fn lemma_local_reset(st: SpecState, m: MainItem)
    requires
        spec_step(st, BasicItem::Main(m)) is Ok,
    ensures
        spec_step(st, BasicItem::Main(m))->Ok_0.local == spec_local_empty(),
{
}

/// Tree well-formedness: whenever parsing a descriptor succeeds, the
/// machine ends with exactly one collection on its stack, and that single
/// root is the returned tree.
pub proof fn lemma_single_root(bytes: Seq<u8>)
    requires
        spec_parse_descriptor(bytes) is Ok,
    ensures
        ({
            let raw = crate::basic::spec_tokenize(bytes)->Ok_0;
            let run = spec_run(spec_init_state(), spec_classified_items(raw));
            &&& run is Ok
            &&& run->Ok_0.stack.len() == 1
            &&& spec_parse_descriptor(bytes)->Ok_0 == run->Ok_0.stack[0]
        }),
{
}

/// Idempotent decode: decoding is a pure function of the descriptor tree
/// and the report buffer, so equal trees and equal buffers decode to equal
/// results. Together with `parse_input`'s contract, two calls on equal
/// inputs return structurally equal trees.
pub proof fn lemma_decode_idempotent(
    t1: SpecCollection<SpecReport>,
    b1: Seq<u8>,
    t2: SpecCollection<SpecReport>,
    b2: Seq<u8>,
)
    requires
        t1 == t2,
        b1 == b2,
    ensures
        spec_parse_input(t1, b1) == spec_parse_input(t2, b2),
{
}

/// Parses a report descriptor into its tree of collections and fields.
pub fn parse_descriptor(bytes: &[u8]) -> (r: Result<Collection<Report>, HidError>)
    ensures
        match spec_parse_descriptor(bytes@) {
            Ok(t) => r is Ok && (r->Ok_0).deep_view() == t && spec_collection_wf(
                (r->Ok_0).deep_view(),
            ),
            Err(e) => r is Err && r->Err_0 == e,
        },
{
    let r = Parser::read_items(BasicItems::new(bytes));
    proof {
        if spec_parse_descriptor(bytes@) is Ok {
            lemma_parse_from_wf(bytes@, 0);
        }
    }
    r
}

/// The fields under a sequence of children, in depth-first order.
pub open spec fn spec_fields_of_items(items: Seq<SpecCollectionItem<SpecReport>>) -> Seq<
    SpecReport,
>
    decreases items,
{
    if items.len() == 0 {
        Seq::empty()
    } else {
        spec_fields_of_items(items.drop_last()) + (match items.last() {
            SpecCollectionItem::Collection(c) => spec_fields(c),
            SpecCollectionItem::Item(f) => seq![f],
        })
    }
}

/// The fields of a tree, in depth-first order.
pub open spec fn spec_fields(c: SpecCollection<SpecReport>) -> Seq<SpecReport>
    decreases c,
{
    spec_fields_of_items(c.items)
}

/// The views of a sequence of field records.
pub open spec fn spec_report_views(s: Seq<Report>) -> Seq<SpecReport> {
    s.map_values(|r: Report| r@)
}

/// A copy of a field record.
fn clone_report(r: &Report) -> (c: Report)
    ensures
        c@ == r@,
{
    let mut usages: Vec<(u16, u16)> = Vec::new();
    let mut i: usize = 0;
    while i < r.usages.len()
        invariant
            0 <= i <= r.usages@.len(),
            usages@ == r.usages@.take(i as int),
        decreases r.usages@.len() - i,
    {
        usages.push(r.usages[i]);
        proof {
            assert(r.usages@.take(i + 1) =~= r.usages@.take(i as int).push(r.usages@[i as int]));
        }
        i = i + 1;
    }
    proof {
        assert(r.usages@.take(r.usages@.len() as int) =~= r.usages@);
    }
    Report {
        report_type: r.report_type,
        usages,
        usage_minimum: r.usage_minimum,
        usage_maximum: r.usage_maximum,
        logical_minimum: r.logical_minimum,
        logical_maximum: r.logical_maximum,
        physical_minimum: r.physical_minimum,
        physical_maximum: r.physical_maximum,
        unit: r.unit,
        unit_exponent: r.unit_exponent,
        bit_offset: r.bit_offset,
        report_id: r.report_id,
        report_size: r.report_size,
        report_count: r.report_count,
    }
}

/// Appends copies of the fields under a tree, in depth-first order.
fn collect_fields(c: &Collection<Report>, out: &mut Vec<Report>)
    ensures
        spec_report_views(final(out)@) == spec_report_views(old(out)@) + spec_fields(
            c.deep_view(),
        ),
    decreases *c,
{
    let ghost dvi = crate::collection::deep_view_items(c.items@);
    let ghost orig = out@;
    proof {
        crate::collection::lemma_deep_view_items(c.items@);
        assert(dvi.take(0) =~= Seq::<SpecCollectionItem<SpecReport>>::empty());
        assert(spec_report_views(out@) =~= spec_report_views(orig) + spec_fields_of_items(
            dvi.take(0),
        ));
    }
    let mut i: usize = 0;
    while i < c.items.len()
        invariant
            dvi == crate::collection::deep_view_items(c.items@),
            dvi.len() == c.items@.len(),
            0 <= i <= c.items@.len(),
            spec_report_views(out@) == spec_report_views(orig) + spec_fields_of_items(
                dvi.take(i as int),
            ),
        decreases c.items@.len() - i,
    {
        proof {
            crate::collection::lemma_deep_view_items(c.items@);
            assert(dvi[i as int] == c.items@[i as int].deep_view());
            assert(dvi.take(i + 1).drop_last() =~= dvi.take(i as int));
            assert(dvi.take(i + 1).last() == dvi[i as int]);
        }
        let ghost out_mid = out@;
        match &c.items[i] {
            CollectionItem::Collection(sub) => {
                collect_fields(sub, out);
                proof {
                    assert(spec_report_views(out@) =~= spec_report_views(orig)
                        + spec_fields_of_items(dvi.take(i + 1)));
                }
            },
            CollectionItem::Item(f) => {
                let copy = clone_report(f);
                let ghost cview = copy@;
                out.push(copy);
                proof {
                    assert(out@.drop_last() =~= out_mid);
                    assert(spec_report_views(out@) =~= spec_report_views(out_mid).push(cview));
                    assert(spec_report_views(out@) =~= spec_report_views(orig)
                        + spec_fields_of_items(dvi.take(i + 1)));
                }
            },
        }
        i = i + 1;
    }
    proof {
        assert(dvi.take(c.items@.len() as int) =~= dvi);
    }
}

impl Collection<Report> {
    /// The field records of the tree, in depth-first order.
    pub fn iter_fields(&self) -> (r: Vec<Report>)
        ensures
            spec_report_views(r@) == spec_fields(self.deep_view()),
    {
        let mut out: Vec<Report> = Vec::new();
        proof {
            assert(spec_report_views(out@) =~= Seq::<SpecReport>::empty());
        }
        collect_fields(self, &mut out);
        proof {
            assert(Seq::<SpecReport>::empty() + spec_fields(self.deep_view()) =~= spec_fields(
                self.deep_view(),
            ));
        }
        out
    }

    /// Decodes one input report against this descriptor tree.
    pub fn decode(&self, report: &[u8]) -> (r: Result<Collection<Vec<Input>>, HidError>)
        requires
            spec_collection_wf(self.deep_view()),
        ensures
            match spec_parse_input(self.deep_view(), report@) {
                Ok(t) => r is Ok && (r->Ok_0).deep_view() == t,
                Err(e) => r is Err && r->Err_0 == e,
            },
    {
        if tree_has_report_id(self) {
            if report.len() == 0 {
                return Err(HidError::ReportTooShort);
            }
            let id = report[0];
            if !tree_matches_id(self, id) {
                return Err(HidError::ReportIdMismatch);
            }
            decode_collection(self, report, Some(id), 8)
        } else {
            decode_collection(self, report, None, 0)
        }
    }
}

/// A parsed report descriptor: the tree of collections and fields that
/// assembling the descriptor produced.
#[derive(Debug)]
pub struct Parser {
    collection: Collection<Report>,
}

impl Parser {
    /// The mathematical value of the descriptor tree.
    pub closed spec fn tree(&self) -> SpecCollection<SpecReport> {
        self.collection.deep_view()
    }

    /// Every field of the tree is well-formed; `new` establishes this.
    pub closed spec fn wf(&self) -> bool {
        spec_collection_wf(self.tree())
    }

    /// Parses a whole descriptor: tokenize, classify, assemble.
    pub fn new(basic_items: BasicItems<'_>) -> (r: Result<Parser, HidError>)
        ensures
            match spec_parse_from(basic_items.bytes@, basic_items.offset as int) {
                Ok(t) => r is Ok && (r->Ok_0).tree() == t && (r->Ok_0).wf(),
                Err(e) => r is Err && r->Err_0 == e,
            },
    {
        match Self::read_items(basic_items) {
            Ok(c) => {
                proof {
                    lemma_parse_from_wf(basic_items.bytes@, basic_items.offset as int);
                }
                Ok(Parser { collection: c })
            },
            Err(e) => Err(e),
        }
    }

    /// Decodes one input report against the descriptor tree.
    pub fn parse_input(&self, input: &[u8]) -> (r: Result<Collection<Vec<Input>>, HidError>)
        requires
            self.wf(),
        ensures
            match spec_parse_input(self.tree(), input@) {
                Ok(t) => r is Ok && (r->Ok_0).deep_view() == t,
                Err(e) => r is Err && r->Err_0 == e,
            },
    {
        self.collection.decode(input)
    }
    /// Overwrites the named entry of the global table, resetting the bit
    /// offset when a new Report ID starts an independent report.
    pub fn read_global_item(
        state_table: &mut StateTable,
        bit_offset: &mut u32,
        item: GlobalItem,
    ) -> (r: Result<(), HidError>)
        ensures
            final(state_table).local@ == old(state_table).local@,
            match spec_step_global(old(state_table).global, *old(bit_offset), item) {
                Ok((g2, off2)) => r is Ok && final(state_table).global == g2 && *final(bit_offset)
                    == off2,
                Err(e) => r == Err::<(), HidError>(e),
            },
    {
        match item {
            GlobalItem::UsagePage(up) => state_table.global.usage_page = Some(up),
            GlobalItem::LogicalMinimum(lm) => state_table.global.logical_minimum = Some(lm),
            GlobalItem::LogicalMaximum(lm) => state_table.global.logical_maximum = Some(lm),
            GlobalItem::PhysicalMinimum(pm) => state_table.global.physical_minimum = Some(pm),
            GlobalItem::PhysicalMaximum(pm) => state_table.global.physical_maximum = Some(pm),
            GlobalItem::UnitExponent(ue) => state_table.global.unit_exponent = Some(ue),
            GlobalItem::Unit(u) => state_table.global.unit = Some(u),
            GlobalItem::ReportSize(rs) => state_table.global.report_size = Some(rs),
            GlobalItem::ReportID(rid) => {
                let same = state_table.global.report_id == Some(rid);
                state_table.global.report_id = Some(rid);
                if !same {
                    *bit_offset = 0;
                }
            },
            GlobalItem::ReportCount(rc) => state_table.global.report_count = Some(rc),
            GlobalItem::Push => {
                return Err(HidError::UnsupportedFeature);
            },
            GlobalItem::Pop => {
                return Err(HidError::UnsupportedFeature);
            },
            GlobalItem::Reserved => (),
        }
        Ok(())
    }

    /// Appends or overwrites the named entry of the local table.
    pub fn read_local_item(state_table: &mut StateTable, item: LocalItem) -> (r: Result<
        (),
        HidError,
    >)
        ensures
            final(state_table).global == old(state_table).global,
            match spec_step_local(old(state_table).local@, item) {
                Ok(l2) => r is Ok && final(state_table).local@ == l2,
                Err(e) => r == Err::<(), HidError>(e),
            },
    {
        match item {
            LocalItem::Usage(usage) => state_table.local.usages.push((None, Some(usage))),
            LocalItem::UsageMinimum(um) => state_table.local.usage_minimum = (None, Some(um)),
            LocalItem::UsageMaximum(um) => state_table.local.usage_maximum = (None, Some(um)),
            LocalItem::ExtendedUsage(up, usage) => state_table.local.usages.push(
                (Some(up), Some(usage)),
            ),
            LocalItem::ExtendedUsageMinimum(up, um) => state_table.local.usage_minimum = (
                Some(up),
                Some(um),
            ),
            LocalItem::ExtendedUsageMaximum(up, um) => state_table.local.usage_maximum = (
                Some(up),
                Some(um),
            ),
            LocalItem::Delimiter(_open) => {
                return Err(HidError::UnsupportedFeature);
            },
            LocalItem::DesignatorIndex(di) => state_table.local.designator_index = Some(di),
            LocalItem::DesignatorMinimum(dm) => state_table.local.designator_minimum = Some(dm),
            LocalItem::DesignatorMaximum(dm) => state_table.local.designator_maximum = Some(dm),
            LocalItem::StringIndex(si) => state_table.local.string_index = Some(si),
            LocalItem::StringMinimum(sm) => state_table.local.string_minimum = Some(sm),
            LocalItem::StringMaximum(sm) => state_table.local.string_maximum = Some(sm),
            LocalItem::Reserved => (),
        }
        Ok(())
    }

    /// Tokenizes the rest of the descriptor, runs the state machine over
    /// the items, and returns the single collection left on the stack.
    pub fn read_items(basic_items: BasicItems<'_>) -> (r: Result<Collection<Report>, HidError>)
        ensures
            match spec_parse_from(basic_items.bytes@, basic_items.offset as int) {
                Ok(t) => r is Ok && (r->Ok_0).deep_view() == t,
                Err(e) => r == Err::<Collection<Report>, HidError>(e),
            },
    {
        let ghost bytes = basic_items.bytes@;
        let ghost start = basic_items.offset as int;

        // First pass: tokenize and classify the whole descriptor.
        let mut cursor = basic_items;
        let mut items: Vec<BasicItem> = Vec::new();
        let ghost mut raw_consumed: Seq<crate::basic::RawItem> = Seq::empty();
        loop
            invariant
                bytes == basic_items.bytes@,
                start == basic_items.offset as int,
                cursor.bytes@ == bytes,
                0 <= start <= cursor.offset as int <= bytes.len() || (start == cursor.offset
                    as int),
                items@ == spec_classified_items(raw_consumed),
                match crate::basic::spec_tokenize_from(bytes, cursor.offset as int) {
                    Ok(rest) => crate::basic::spec_tokenize_from(bytes, start) == Ok::<
                        _,
                        HidError,
                    >(raw_consumed + rest),
                    Err(e) => crate::basic::spec_tokenize_from(bytes, start) == Err::<
                        Seq<crate::basic::RawItem>,
                        _,
                    >(e),
                },
            ensures
                crate::basic::spec_tokenize_from(bytes, start) == Ok::<_, HidError>(raw_consumed),
                items@ == spec_classified_items(raw_consumed),
            decreases bytes.len() - cursor.offset as int,
        {
            let ghost cur = cursor.offset as int;
            match cursor.next() {
                Err(e) => {
                    return Err(e);
                },
                Ok(None) => {
                    proof {
                        assert(raw_consumed + Seq::<crate::basic::RawItem>::empty()
                            =~= raw_consumed);
                    }
                    break ;
                },
                Ok(Some(item)) => {
                    items.push(item);
                    proof {
                        let raw = crate::basic::spec_next_item(bytes, cur)->Ok_0->0;
                        let next_off = cur + crate::basic::spec_encoded_len(raw);
                        match crate::basic::spec_tokenize_from(bytes, next_off) {
                            Ok(rest2) => {
                                assert(raw_consumed + (seq![raw] + rest2) =~= raw_consumed.push(
                                    raw,
                                ) + rest2);
                            },
                            Err(_e) => {},
                        }
                        assert(spec_classified_items(raw_consumed.push(raw))
                            =~= spec_classified_items(raw_consumed).push(
                            crate::basic::spec_classify(raw),
                        ));
                        raw_consumed = raw_consumed.push(raw);
                    }
                },
            }
        }

        // Second pass: run the state machine over the classified items.
        let ghost citems = items@;
        let mut state_table = StateTable { global: GlobalItems::new(), local: LocalItems::new() };
        let mut collection_stack: Vec<Collection<Report>> = Vec::new();
        let mut bit_offset: u32 = 0;
        let mut closed: bool = false;
        let mut i: usize = 0;

        proof {
            assert(citems.take(0) =~= Seq::<BasicItem>::empty());
            assert(spec_stack_view(collection_stack@) =~= Seq::<
                SpecCollection<SpecReport>,
            >::empty());
        }

        while i < items.len()
            invariant
                bytes == basic_items.bytes@,
                start == basic_items.offset as int,
                items@ == citems,
                0 <= i <= citems.len(),
                crate::basic::spec_tokenize_from(bytes, start) == Ok::<_, HidError>(raw_consumed),
                citems == spec_classified_items(raw_consumed),
                spec_run(spec_init_state(), citems.take(i as int)) == Ok::<_, HidError>(
                    SpecState {
                        global: state_table.global,
                        local: state_table.local@,
                        stack: spec_stack_view(collection_stack@),
                        bit_offset: bit_offset,
                        closed: closed,
                    },
                ),
            decreases items.len() - i,
        {
            let ghost cur_state = SpecState {
                global: state_table.global,
                local: state_table.local@,
                stack: spec_stack_view(collection_stack@),
                bit_offset: bit_offset,
                closed: closed,
            };
            proof {
                assert(citems.take(i + 1) =~= citems.take(i as int).push(citems[i as int]));
                lemma_run_snoc(spec_init_state(), citems.take(i as int), citems[i as int]);
            }
            if closed {
                proof {
                    lemma_run_err_extend(spec_init_state(), citems, i + 1);
                }
                return Err(HidError::UnbalancedCollections);
            }
            let item = items[i];
            match item {
                BasicItem::Global(g) => {
                    match Self::read_global_item(&mut state_table, &mut bit_offset, g) {
                        Ok(()) => (),
                        Err(e) => {
                            proof {
                                lemma_run_err_extend(spec_init_state(), citems, i + 1);
                            }
                            return Err(e);
                        },
                    }
                },
                BasicItem::Local(l) => {
                    match Self::read_local_item(&mut state_table, l) {
                        Ok(()) => (),
                        Err(e) => {
                            proof {
                                lemma_run_err_extend(spec_init_state(), citems, i + 1);
                            }
                            return Err(e);
                        },
                    }
                },
                BasicItem::Main(m) => {
                    match m {
                        MainItem::Input(input) => {
                            if collection_stack.len() == 0 {
                                proof {
                                    lemma_run_err_extend(spec_init_state(), citems, i + 1);
                                }
                                return Err(HidError::UnbalancedCollections);
                            }
                            match Self::create_input_item(
                                &mut state_table,
                                &mut collection_stack,
                                &mut bit_offset,
                                input,
                            ) {
                                Ok(()) => (),
                                Err(e) => {
                                    proof {
                                        lemma_run_err_extend(spec_init_state(), citems, i + 1);
                                    }
                                    return Err(e);
                                },
                            }
                        },
                        MainItem::Collection(c) => {
                            if state_table.local.usages.len() != 1 {
                                proof {
                                    lemma_run_err_extend(spec_init_state(), citems, i + 1);
                                }
                                return Err(HidError::MalformedUsage);
                            }
                            let local_usage = state_table.local.usages[0];
                            let usage = match Self::qualify_usage(
                                &state_table.global.usage_page,
                                &local_usage,
                            ) {
                                Ok(Some(u)) => u,
                                Ok(None) => {
                                    proof {
                                        lemma_run_err_extend(spec_init_state(), citems, i + 1);
                                    }
                                    return Err(HidError::MalformedUsage);
                                },
                                Err(e) => {
                                    proof {
                                        lemma_run_err_extend(spec_init_state(), citems, i + 1);
                                    }
                                    return Err(e);
                                },
                            };
                            let collection = Collection {
                                collection_type: c,
                                usage,
                                designator_index: None,
                                string_index: None,
                                items: Vec::new(),
                            };
                            collection_stack.push(collection);
                            state_table.local = LocalItems::new();
                            proof {
                                let st2 = spec_step(cur_state, citems[i as int])->Ok_0;
                                assert(spec_stack_view(collection_stack@) =~= st2.stack);
                            }
                        },
                        MainItem::EndCollection => {
                            if collection_stack.len() == 0 {
                                proof {
                                    lemma_run_err_extend(spec_init_state(), citems, i + 1);
                                }
                                return Err(HidError::UnbalancedCollections);
                            }
                            if collection_stack.len() == 1 {
                                closed = true;
                                state_table.local = LocalItems::new();
                            } else {
                                let top = match collection_stack.pop() {
                                    Some(t) => t,
                                    None => {
                                        proof {
                                            assert(false);
                                        }
                                        return Err(HidError::UnbalancedCollections);
                                    },
                                };
                                let mut parent = match collection_stack.pop() {
                                    Some(p) => p,
                                    None => {
                                        proof {
                                            assert(false);
                                        }
                                        return Err(HidError::UnbalancedCollections);
                                    },
                                };
                                let ghost parent_items = parent.items@;
                                let ghost top_view = top.deep_view();
                                parent.items.push(CollectionItem::Collection(top));
                                collection_stack.push(parent);
                                state_table.local = LocalItems::new();
                                proof {
                                    assert(parent.items@.drop_last() =~= parent_items);
                                    assert(parent.items@.last().deep_view()
                                        == SpecCollectionItem::Collection(top_view));
                                    assert(crate::collection::deep_view_items(parent.items@)
                                        == crate::collection::deep_view_items(parent_items).push(
                                        SpecCollectionItem::Collection(top_view),
                                    ));
                                    let st2 = spec_step(cur_state, citems[i as int])->Ok_0;
                                    assert(spec_stack_view(collection_stack@) =~= st2.stack);
                                }
                            }
                        },
                        MainItem::Output(_d) => {
                            state_table.local = LocalItems::new();
                        },
                        MainItem::Feature(_d) => {
                            state_table.local = LocalItems::new();
                        },
                        MainItem::Reserved => {
                            state_table.local = LocalItems::new();
                        },
                    }
                },
                BasicItem::Reserved => (),
            }
            i = i + 1;
        }

        proof {
            assert(citems.take(citems.len() as int) =~= citems);
        }

        if collection_stack.len() == 1 {
            match collection_stack.pop() {
                Some(root) => Ok(root),
                None => {
                    proof {
                        assert(false);
                    }
                    Err(HidError::UnbalancedCollections)
                },
            }
        } else {
            Err(HidError::UnbalancedCollections)
        }
    }

    /// Freezes a field from the state tables at a Main/Input item, appends
    /// it to the open collection, advances the bit offset past the field,
    /// and clears the local table.
    pub fn create_input_item(
        state_table: &mut StateTable,
        collection_stack: &mut Vec<Collection<Report>>,
        bit_offset: &mut u32,
        input: InputItemData,
    ) -> (r: Result<(), HidError>)
        requires
            old(collection_stack)@.len() > 0,
        ensures
            ({
                let st = SpecState {
                    global: old(state_table).global,
                    local: old(state_table).local@,
                    stack: spec_stack_view(old(collection_stack)@),
                    bit_offset: *old(bit_offset),
                    closed: false,
                };
                match spec_freeze_field(st, input.data) {
                    Err(e) => r == Err::<(), HidError>(e),
                    Ok(st2) => r is Ok && final(state_table).global == st2.global
                        && final(state_table).local@ == st2.local
                        && spec_stack_view(final(collection_stack)@) == st2.stack
                        && *final(bit_offset) == st2.bit_offset,
                }
            }),
    {
        let ghost st0 = SpecState {
            global: state_table.global,
            local: state_table.local@,
            stack: spec_stack_view(collection_stack@),
            bit_offset: *bit_offset,
            closed: false,
        };
        let usage_page = state_table.global.usage_page;

        let ghost entries = state_table.local.usages@;
        let mut usages: Vec<(u16, u16)> = Vec::new();
        let mut idx: usize = 0;
        while idx < state_table.local.usages.len()
            invariant
                *state_table == *old(state_table),
                *collection_stack == *old(collection_stack),
                *bit_offset == *old(bit_offset),
                usage_page == state_table.global.usage_page,
                entries == state_table.local.usages@,
                0 <= idx <= entries.len(),
                spec_qualify_usages(usage_page, entries.take(idx as int)) == Ok::<_, HidError>(
                    usages@,
                ),
            decreases entries.len() - idx,
        {
            let entry = state_table.local.usages[idx];
            proof {
                lemma_qualify_usages_step(usage_page, entries, idx as int);
            }
            match Self::qualify_usage(&usage_page, &entry) {
                Err(e) => {
                    proof {
                        lemma_qualify_usages_extend_err(usage_page, entries, idx as int + 1);
                    }
                    return Err(e);
                },
                Ok(None) => {
                    proof {
                        lemma_qualify_usages_extend_err(usage_page, entries, idx as int + 1);
                    }
                    return Err(HidError::MalformedUsage);
                },
                Ok(Some(q)) => usages.push(q),
            }
            idx = idx + 1;
        }
        proof {
            assert(entries.take(entries.len() as int) =~= entries);
        }

        let usage_minimum = match Self::qualify_usage(&usage_page, &state_table.local.usage_minimum) {
            Ok(v) => v,
            Err(e) => {
                return Err(e);
            },
        };
        let usage_maximum = match Self::qualify_usage(&usage_page, &state_table.local.usage_maximum) {
            Ok(v) => v,
            Err(e) => {
                return Err(e);
            },
        };

        let report_size = match state_table.global.report_size {
            Some(v) => v,
            None => {
                return Err(HidError::MissingGlobal(MissingItem::ReportSize));
            },
        };
        let report_count = match state_table.global.report_count {
            Some(v) => v,
            None => {
                return Err(HidError::MissingGlobal(MissingItem::ReportCount));
            },
        };
        let logical_minimum = match state_table.global.logical_minimum {
            Some(v) => v,
            None => {
                return Err(HidError::MissingGlobal(MissingItem::LogicalMinimum));
            },
        };
        let logical_maximum = match state_table.global.logical_maximum {
            Some(v) => v,
            None => {
                return Err(HidError::MissingGlobal(MissingItem::LogicalMaximum));
            },
        };

        if report_size < 1 || report_size > 32 {
            return Err(HidError::InvalidReportSize);
        }
        if logical_minimum > logical_maximum {
            return Err(HidError::InvalidLogicalBounds);
        }
        let constant = input.data & 1 == 1;
        if !constant && report_count > 0 && usages.len() == 0 && usage_minimum.is_none() {
            return Err(HidError::MalformedUsage);
        }

        proof {
            vstd::arithmetic::mul::lemma_mul_upper_bound(
                report_count as int,
                u32::MAX as int,
                report_size as int,
                u32::MAX as int,
            );
        }
        let add: u64 = (report_count as u64) * (report_size as u64);
        let new_off: u64 = (*bit_offset as u64) + add;
        if new_off > 0xFFFF_FFF7u64 {
            return Err(HidError::OffsetOverflow);
        }

        let physical_minimum = match state_table.global.physical_minimum {
            Some(p) => p,
            None => logical_minimum,
        };
        let physical_maximum = match state_table.global.physical_maximum {
            Some(p) => p,
            None => logical_maximum,
        };

        let report = Report {
            report_type: ReportType::Input(input.data),
            usages,
            usage_minimum,
            usage_maximum,
            logical_minimum,
            logical_maximum,
            physical_minimum,
            physical_maximum,
            unit: state_table.global.unit,
            unit_exponent: state_table.global.unit_exponent,
            bit_offset: *bit_offset as usize,
            report_id: state_table.global.report_id,
            report_size,
            report_count,
        };

        let ghost rview = report@;

        let mut top = match collection_stack.pop() {
            Some(c) => c,
            None => {
                proof {
                    assert(false);
                }
                return Err(HidError::UnbalancedCollections);
            },
        };
        let ghost old_items = top.items@;
        top.items.push(CollectionItem::Item(report));
        collection_stack.push(top);
        *bit_offset = new_off as u32;
        state_table.local = LocalItems::new();

        proof {
            let l = st0.stack.len();
            let old_top = st0.stack.last();
            let top2 = SpecCollection {
                items: old_top.items.push(SpecCollectionItem::Item(rview)),
                ..old_top
            };
            assert(top.items@.drop_last() =~= old_items);
            assert(crate::collection::deep_view_items(top.items@) == crate::collection::deep_view_items(
                old_items,
            ).push(SpecCollectionItem::Item(rview)));
            assert(top.deep_view() == top2);
            let st2 = spec_freeze_field(st0, input.data)->Ok_0;
            assert(spec_stack_view(collection_stack@) =~= st2.stack);
            assert(state_table.local@ == st2.local);
        }
        Ok(())
    }

    /// Qualifies one `(page, usage)` slot against the global Usage Page.
    pub fn qualify_usage(usage_page: &Option<u16>, usage: &(Option<u16>, Option<u16>)) -> (r:
        Result<Option<(u16, u16)>, HidError>)
        ensures
            r == spec_qualify(*usage_page, *usage),
    {
        match (usage_page, usage) {
            (_, (None, None)) => Ok(None),
            (_, (Some(up), Some(us))) => Ok(Some((*up, *us))),
            (Some(up), (None, Some(us))) => Ok(Some((*up, *us))),
            (None, (None, Some(_us))) => Err(HidError::MissingUsagePage),
            (_, (Some(_up), None)) => Err(HidError::MalformedUsage),
        }
    }
}

} // verus!
