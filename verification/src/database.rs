//! Recording a description against its asset.
//!
//! Nothing here talks to the storage. A [`DescriptionWrite`] says which
//! statement to run next, with the values to bind to its placeholders; the
//! caller runs it and hands back what the storage answered. The text of a
//! statement never depends on the description or the asset: both travel as
//! bound values only.

use vstd::prelude::*;
use vstd::string::*;
use crate::asset::{hyphenated, uuid_text};
use crate::error::ImageAnalysisError;

verus! {

/// The outcome of a successful analysis: the description of one asset.
/// `asset_id` is the asset's UUID, read as one 128-bit number.
#[derive(Debug, Clone, PartialEq, Eq)]
pub struct ImageAnalysisResult {
    pub description: String,
    pub asset_id: u128,
}

/// A description as a value: its text and the asset it belongs to.
pub struct DescriptionView {
    pub description: Seq<char>,
    pub asset_id: u128,
}

impl View for ImageAnalysisResult {
    type V = DescriptionView;

    open spec fn view(&self) -> DescriptionView {
        DescriptionView { description: self.description@, asset_id: self.asset_id }
    }
}

/// The statements that this module plans.
#[derive(Debug, Clone, Copy, PartialEq, Eq)]
pub enum StatementKind {
    /// Set the description of the asset's row, if it has one.
    UpdateDescription,
    /// Ask whether the asset exists at all.
    AssetExists,
    /// Add the asset's row, or set its description where a row has appeared
    /// in the meantime.
    InsertDescription,
    /// Ask whether the asset has a description that is not empty.
    HasDescription,
    /// Ask for nothing, to see whether the storage answers.
    Probe,
}

/// One statement with the values for its placeholders, in their order.
#[derive(Debug, Clone, PartialEq, Eq)]
pub struct Statement {
    pub kind: StatementKind,
    pub sql: String,
    pub params: Vec<String>,
}

/// What the caller does next.
#[derive(Debug, PartialEq, Eq)]
pub enum WriteStep {
    /// Run this statement and hand in its answer.
    Run(Statement),
    /// The write is over.
    Finished(Result<(), ImageAnalysisError>),
}

/// The write of one description for one asset.
#[derive(Debug)]
pub struct DescriptionWrite {
    asset_id: u128,
    description: String,
}

/// How long the caller waits for the answer to the probe.
pub const PROBE_TIMEOUT_SECS: u64 = 5;

/// What became of the probe.
#[derive(Debug, Clone, PartialEq, Eq)]
pub enum ProbeOutcome {
    Answered,
    Failed { detail: String },
    TimedOut,
}

/// The text of each statement. Values stand in it as `$1`, `$2` only.
pub open spec fn sql_of(kind: StatementKind) -> Seq<char> {
    match kind {
        StatementKind::UpdateDescription =>
            "UPDATE asset_exif SET description = $1, \"updatedAt\" = NOW(), \"updateId\" = immich_uuid_v7() WHERE \"assetId\" = $2::text::uuid"@,
        StatementKind::AssetExists =>
            "SELECT EXISTS (SELECT 1 FROM asset WHERE id = $1::text::uuid)"@,
        StatementKind::InsertDescription =>
            "INSERT INTO asset_exif (\"assetId\", description, \"updatedAt\", \"updateId\") VALUES ($1::text::uuid, $2, NOW(), immich_uuid_v7()) ON CONFLICT (\"assetId\") DO UPDATE SET description = EXCLUDED.description, \"updatedAt\" = NOW(), \"updateId\" = immich_uuid_v7()"@,
        StatementKind::HasDescription =>
            "SELECT EXISTS (SELECT 1 FROM asset_exif WHERE \"assetId\"::text = $1 AND description IS NOT NULL AND description != '')"@,
        StatementKind::Probe => "SELECT 1"@,
    }
}

/// The values bound to the placeholders of each statement, for the asset
/// `id` and the description `text`.
pub open spec fn params_of(kind: StatementKind, id: u128, text: Seq<char>) -> Seq<Seq<char>> {
    match kind {
        StatementKind::UpdateDescription => seq![text, uuid_text(id)],
        StatementKind::AssetExists => seq![uuid_text(id)],
        StatementKind::InsertDescription => seq![uuid_text(id), text],
        StatementKind::HasDescription => seq![uuid_text(id)],
        StatementKind::Probe => Seq::empty(),
    }
}

/// A [`Statement`] as a value.
pub struct StatementView {
    pub kind: StatementKind,
    pub sql: Seq<char>,
    pub params: Seq<Seq<char>>,
}

/// The statement of the given kind for the asset `id` and the description
/// `text`.
pub open spec fn statement_of(kind: StatementKind, id: u128, text: Seq<char>) -> StatementView {
    StatementView { kind, sql: sql_of(kind), params: params_of(kind, id, text) }
}

impl View for Statement {
    type V = StatementView;

    open spec fn view(&self) -> StatementView {
        StatementView {
            kind: self.kind,
            sql: self.sql@,
            params: Seq::new(self.params@.len(), |i: int| self.params@[i]@),
        }
    }
}

/// A [`WriteStep`] as a value.
pub enum WriteStepView {
    Run(StatementView),
    Finished(Result<(), ImageAnalysisError>),
}

impl View for WriteStep {
    type V = WriteStepView;

    open spec fn view(&self) -> WriteStepView {
        match self {
            WriteStep::Run(statement) => WriteStepView::Run(statement@),
            WriteStep::Finished(r) => WriteStepView::Finished(*r),
        }
    }
}

/// A [`DescriptionWrite`] as a value.
pub struct WriteView {
    pub asset_id: u128,
    pub description: Seq<char>,
}

impl View for DescriptionWrite {
    type V = WriteView;

    closed spec fn view(&self) -> WriteView {
        WriteView { asset_id: self.asset_id, description: self.description@ }
    }
}

fn sql_text(kind: StatementKind) -> (sql: String)
    ensures
        sql@ == sql_of(kind),
{
    match kind {
        StatementKind::UpdateDescription => String::from_str(
            "UPDATE asset_exif SET description = $1, \"updatedAt\" = NOW(), \"updateId\" = immich_uuid_v7() WHERE \"assetId\" = $2::text::uuid",
        ),
        StatementKind::AssetExists => String::from_str(
            "SELECT EXISTS (SELECT 1 FROM asset WHERE id = $1::text::uuid)",
        ),
        StatementKind::InsertDescription => String::from_str(
            "INSERT INTO asset_exif (\"assetId\", description, \"updatedAt\", \"updateId\") VALUES ($1::text::uuid, $2, NOW(), immich_uuid_v7()) ON CONFLICT (\"assetId\") DO UPDATE SET description = EXCLUDED.description, \"updatedAt\" = NOW(), \"updateId\" = immich_uuid_v7()",
        ),
        StatementKind::HasDescription => String::from_str(
            "SELECT EXISTS (SELECT 1 FROM asset_exif WHERE \"assetId\"::text = $1 AND description IS NOT NULL AND description != '')",
        ),
        StatementKind::Probe => String::from_str("SELECT 1"),
    }
}

/// Builds the statement of the given kind for the asset `id` and the
/// description `text`. Neither of the two shows in the statement's text.
pub fn statement(kind: StatementKind, id: u128, text: &str) -> (r: Statement)
    ensures
        r@ == statement_of(kind, id, text@),
{
    let mut params: Vec<String> = Vec::new();
    match kind {
        StatementKind::UpdateDescription => {
            params.push(String::from_str(text));
            params.push(hyphenated(id));
        },
        StatementKind::AssetExists => {
            params.push(hyphenated(id));
        },
        StatementKind::InsertDescription => {
            params.push(hyphenated(id));
            params.push(String::from_str(text));
        },
        StatementKind::HasDescription => {
            params.push(hyphenated(id));
        },
        StatementKind::Probe => {},
    }
    let r = Statement { kind, sql: sql_text(kind), params };
    assert(r@.params =~= params_of(kind, id, text@));
    r
}

/// The step after the update: done where it changed a row, failed where
/// the storage failed, and otherwise the question whether the asset exists.
pub open spec fn step_after_update(write: WriteView, reply: Result<u64, String>) -> WriteStepView {
    match reply {
        Ok(rows) => if rows > 0 {
            WriteStepView::Finished(Ok(()))
        } else {
            WriteStepView::Run(
                statement_of(StatementKind::AssetExists, write.asset_id, write.description),
            )
        },
        Err(detail) => WriteStepView::Finished(Err(ImageAnalysisError::StoreError { detail })),
    }
}

/// The step after the question whether the asset exists: the insert where
/// it does, `AssetNotFound` where it does not, failed where the storage
/// failed.
pub open spec fn step_after_asset_check(
    write: WriteView,
    reply: Result<bool, String>,
) -> WriteStepView {
    match reply {
        Ok(exists) => if exists {
            WriteStepView::Run(
                statement_of(StatementKind::InsertDescription, write.asset_id, write.description),
            )
        } else {
            WriteStepView::Finished(Err(ImageAnalysisError::AssetNotFound))
        },
        Err(detail) => WriteStepView::Finished(Err(ImageAnalysisError::StoreError { detail })),
    }
}

/// How the write ends after the insert: well, unless the storage failed.
pub open spec fn end_after_insert(reply: Result<u64, String>) -> Result<(), ImageAnalysisError> {
    match reply {
        Ok(_) => Ok(()),
        Err(detail) => Err(ImageAnalysisError::StoreError { detail }),
    }
}

impl DescriptionWrite {
    /// The write of `description` for the asset `asset_id`.
    pub fn new(asset_id: u128, description: &str) -> (r: Self)
        ensures
            r@ == (WriteView { asset_id, description: description@ }),
    {
        DescriptionWrite { asset_id, description: String::from_str(description) }
    }

    /// The first statement of the write: the update of the asset's row.
    pub fn update(&self) -> (r: Statement)
        ensures
            r@ == statement_of(StatementKind::UpdateDescription, self@.asset_id, self@.description),
    {
        statement(StatementKind::UpdateDescription, self.asset_id, self.description.as_str())
    }

    /// Takes in the answer to the update: the number of rows it changed, or
    /// the failure that the storage reported.
    pub fn after_update(&self, reply: Result<u64, String>) -> (r: WriteStep)
        ensures
            r@ == step_after_update(self@, reply),
    {
        match reply {
            Ok(rows) => if rows > 0 {
                WriteStep::Finished(Ok(()))
            } else {
                WriteStep::Run(
                    statement(
                        StatementKind::AssetExists,
                        self.asset_id,
                        self.description.as_str(),
                    ),
                )
            },
            Err(detail) => WriteStep::Finished(Err(ImageAnalysisError::StoreError { detail })),
        }
    }

    /// Takes in the answer to the question whether the asset exists.
    pub fn after_asset_check(&self, reply: Result<bool, String>) -> (r: WriteStep)
        ensures
            r@ == step_after_asset_check(self@, reply),
    {
        match reply {
            Ok(exists) => if exists {
                WriteStep::Run(
                    statement(
                        StatementKind::InsertDescription,
                        self.asset_id,
                        self.description.as_str(),
                    ),
                )
            } else {
                WriteStep::Finished(Err(ImageAnalysisError::AssetNotFound))
            },
            Err(detail) => WriteStep::Finished(Err(ImageAnalysisError::StoreError { detail })),
        }
    }

    /// Takes in the answer to the insert.
    pub fn after_insert(&self, reply: Result<u64, String>) -> (r: Result<(), ImageAnalysisError>)
        ensures
            r == end_after_insert(reply),
    {
        match reply {
            Ok(_) => Ok(()),
            Err(detail) => Err(ImageAnalysisError::StoreError { detail }),
        }
    }
}

/// One row of the description table, as a value.
pub struct RowView {
    pub asset_id: u128,
    pub description: Seq<char>,
}

/// The storage as one caller at a time sees it: the assets that exist, and
/// the rows of the description table.
pub struct StoreView {
    pub assets: Set<u128>,
    pub rows: Seq<RowView>,
}

/// The number of rows that belong to the asset `id`.
pub open spec fn row_count(rows: Seq<RowView>, id: u128) -> nat
    decreases rows.len(),
{
    if rows.len() == 0 {
        0
    } else {
        row_count(rows.drop_last(), id) + if rows.last().asset_id == id {
            1nat
        } else {
            0nat
        }
    }
}

/// The rows after every row of the asset `id` has got the description
/// `text`.
pub open spec fn with_description(rows: Seq<RowView>, id: u128, text: Seq<char>) -> Seq<RowView> {
    Seq::new(
        rows.len(),
        |i: int|
            if rows[i].asset_id == id {
                RowView { asset_id: id, description: text }
            } else {
                rows[i]
            },
    )
}

/// A row count as the storage reports it.
pub open spec fn reported(count: nat) -> u64 {
    if count <= u64::MAX {
        count as u64
    } else {
        u64::MAX
    }
}

/// The storage after it has run the statement of the given kind for the
/// asset `id` and the description `text`: an update rewrites the rows of the
/// asset; an insert adds a row, or rewrites the asset's rows where it has
/// any; the others change nothing.
pub open spec fn after_statement(
    store: StoreView,
    kind: StatementKind,
    id: u128,
    text: Seq<char>,
) -> StoreView {
    match kind {
        StatementKind::UpdateDescription => StoreView {
            rows: with_description(store.rows, id, text),
            ..store
        },
        StatementKind::InsertDescription => if row_count(store.rows, id) > 0 {
            StoreView { rows: with_description(store.rows, id, text), ..store }
        } else {
            StoreView {
                rows: store.rows.push(RowView { asset_id: id, description: text }),
                ..store
            }
        },
        _ => store,
    }
}

/// One whole write of `text` for the asset `id` against a storage that
/// answers every statement: the storage that it leaves, and how it ends.
/// The statements run in the order that [`DescriptionWrite`] gives, each
/// answered from the storage as the statement before it left it.
pub open spec fn written(store: StoreView, id: u128, text: Seq<char>) -> (
    StoreView,
    Result<(), ImageAnalysisError>,
) {
    let write = WriteView { asset_id: id, description: text };
    let updated = after_statement(store, StatementKind::UpdateDescription, id, text);
    match step_after_update(write, Ok(reported(row_count(store.rows, id)))) {
        WriteStepView::Finished(r) => (updated, r),
        WriteStepView::Run(check) => match step_after_asset_check(
            write,
            Ok(updated.assets.contains(id)),
        ) {
            WriteStepView::Finished(r) => (after_statement(updated, check.kind, id, text), r),
            WriteStepView::Run(insert) => (
                after_statement(updated, insert.kind, id, text),
                end_after_insert(Ok(1)),
            ),
        },
    }
}

/// An asset has no row exactly when no row bears its id.
pub proof fn lemma_row_count(rows: Seq<RowView>, id: u128)
    ensures
        row_count(rows, id) <= rows.len(),
        row_count(rows, id) == 0 <==> forall|i: int|
            0 <= i < rows.len() ==> (#[trigger] rows[i]).asset_id != id,
    decreases rows.len(),
{
    if rows.len() > 0 {
        let front = rows.drop_last();
        lemma_row_count(front, id);
        if row_count(rows, id) == 0 {
            assert forall|i: int| 0 <= i < rows.len() implies (#[trigger] rows[i]).asset_id
                != id by {
                if i < rows.len() - 1 {
                    assert(front[i] == rows[i]);
                }
            }
        }
        if forall|i: int| 0 <= i < rows.len() ==> (#[trigger] rows[i]).asset_id != id {
            assert forall|i: int| 0 <= i < front.len() implies (#[trigger] front[i]).asset_id
                != id by {
                assert(front[i] == rows[i]);
            }
            assert(rows[rows.len() - 1].asset_id != id);
        }
    }
}

/// Rewriting the rows of one asset changes no asset's number of rows.
pub proof fn lemma_with_description_keeps_counts(
    rows: Seq<RowView>,
    id: u128,
    text: Seq<char>,
    other: u128,
)
    ensures
        row_count(with_description(rows, id, text), other) == row_count(rows, other),
    decreases rows.len(),
{
    if rows.len() > 0 {
        lemma_with_description_keeps_counts(rows.drop_last(), id, text, other);
        assert(with_description(rows, id, text).drop_last() =~= with_description(
            rows.drop_last(),
            id,
            text,
        ));
    }
}

/// A write for an asset that does not exist and has no row fails with
/// `AssetNotFound` and leaves the storage as it was: no row is created.
pub proof fn lemma_missing_asset_is_refused(store: StoreView, id: u128, text: Seq<char>)
    requires
        !store.assets.contains(id),
        row_count(store.rows, id) == 0,
    ensures
        written(store, id, text) == (
            store,
            Err::<(), ImageAnalysisError>(ImageAnalysisError::AssetNotFound),
        ),
{
    lemma_row_count(store.rows, id);
    assert(with_description(store.rows, id, text) =~= store.rows);
}

/// A write for an asset that exists, or that has a row already, ends well.
/// Afterwards every row of the asset holds the new description; the asset
/// has one row where it had none, and as many as before otherwise; the rows
/// of every other asset are as they were.
pub proof fn lemma_write_converges(store: StoreView, id: u128, text: Seq<char>)
    requires
        store.assets.contains(id) || row_count(store.rows, id) > 0,
    ensures
        written(store, id, text).1 == Ok::<(), ImageAnalysisError>(()),
        written(store, id, text).0.assets == store.assets,
        row_count(written(store, id, text).0.rows, id) == if row_count(store.rows, id) == 0 {
            1
        } else {
            row_count(store.rows, id)
        },
        forall|i: int|
            0 <= i < written(store, id, text).0.rows.len() && (#[trigger] written(
                store,
                id,
                text,
            ).0.rows[i]).asset_id == id ==> written(store, id, text).0.rows[i].description == text,
        forall|i: int|
            0 <= i < store.rows.len() && (#[trigger] store.rows[i]).asset_id != id ==> written(
                store,
                id,
                text,
            ).0.rows[i] == store.rows[i],
        forall|other: u128|
            other != id ==> row_count(written(store, id, text).0.rows, other) == row_count(
                store.rows,
                other,
            ),
        written(store, id, text).0.rows.len() == if row_count(store.rows, id) == 0 {
            store.rows.len() + 1
        } else {
            store.rows.len()
        },
{
    lemma_row_count(store.rows, id);
    let rewritten = with_description(store.rows, id, text);
    lemma_with_description_keeps_counts(store.rows, id, text, id);
    assert forall|other: u128| other != id implies row_count(
        written(store, id, text).0.rows,
        other,
    ) == row_count(store.rows, other) by {
        lemma_with_description_keeps_counts(store.rows, id, text, other);
        if row_count(store.rows, id) == 0 {
            let added = rewritten.push(RowView { asset_id: id, description: text });
            assert(added.drop_last() =~= rewritten);
        }
    }
    if row_count(store.rows, id) == 0 {
        let added = rewritten.push(RowView { asset_id: id, description: text });
        assert(added.drop_last() =~= rewritten);
        assert(rewritten =~= store.rows);
    }
}

/// Two writes in a row for an asset that exists and had no row leave
/// exactly one row for it, and that row holds the second description.
pub proof fn lemma_second_write_wins(
    store: StoreView,
    id: u128,
    first: Seq<char>,
    second: Seq<char>,
)
    requires
        store.assets.contains(id),
        row_count(store.rows, id) == 0,
    ensures
        ({
            let (once, first_end) = written(store, id, first);
            let (twice, second_end) = written(once, id, second);
            &&& first_end == Ok::<(), ImageAnalysisError>(())
            &&& second_end == Ok::<(), ImageAnalysisError>(())
            &&& row_count(twice.rows, id) == 1
            &&& twice.rows == store.rows.push(RowView { asset_id: id, description: second })
            &&& twice.assets == store.assets
        }),
{
    lemma_write_converges(store, id, first);
    let once = written(store, id, first).0;
    lemma_write_converges(once, id, second);
    let twice = written(once, id, second).0;
    lemma_row_count(store.rows, id);
    assert(with_description(store.rows, id, first) =~= store.rows);
    assert(once.rows == store.rows.push(RowView { asset_id: id, description: first }));
    assert(twice.rows =~= store.rows.push(RowView { asset_id: id, description: second }));
}

/// The statement that asks whether the asset `asset_id` has a description
/// that is not empty.
pub fn has_description_statement(asset_id: u128) -> (r: Statement)
    ensures
        r@ == statement_of(StatementKind::HasDescription, asset_id, Seq::empty()),
{
    let r = statement(StatementKind::HasDescription, asset_id, "");
    proof {
        reveal_strlit("");
        assert(""@ =~= Seq::<char>::empty());
    }
    r
}

/// Reads the answer to [`has_description_statement`].
pub fn has_description_verdict(reply: Result<bool, String>) -> (r: Result<bool, ImageAnalysisError>)
    ensures
        r == match reply {
            Ok(flag) => Ok::<bool, ImageAnalysisError>(flag),
            Err(detail) => Err(ImageAnalysisError::StoreError { detail }),
        },
{
    match reply {
        Ok(flag) => Ok(flag),
        Err(detail) => Err(ImageAnalysisError::StoreError { detail }),
    }
}

/// The statement of the connectivity probe.
pub fn probe_statement() -> (r: Statement)
    ensures
        r@ == statement_of(StatementKind::Probe, 0, Seq::empty()),
{
    let r = statement(StatementKind::Probe, 0, "");
    proof {
        reveal_strlit("");
        assert(""@ =~= Seq::<char>::empty());
    }
    r
}

/// Judges the probe: `Ok(true)` where the storage answered; a `StoreError`
/// with the storage's own words where it failed, and with the words
/// `"timed out"` where it did not answer in time.
pub fn probe_verdict(outcome: ProbeOutcome) -> (r: Result<bool, ImageAnalysisError>)
    ensures
        match outcome {
            ProbeOutcome::Answered => r == Ok::<bool, ImageAnalysisError>(true),
            ProbeOutcome::Failed { detail } => r == Err::<bool, ImageAnalysisError>(
                ImageAnalysisError::StoreError { detail },
            ),
            ProbeOutcome::TimedOut => r matches Err(ImageAnalysisError::StoreError { detail })
                && detail@ == "timed out"@,
        },
{
    match outcome {
        ProbeOutcome::Answered => Ok(true),
        ProbeOutcome::Failed { detail } => Err(ImageAnalysisError::StoreError { detail }),
        ProbeOutcome::TimedOut => Err(
            ImageAnalysisError::StoreError { detail: String::from_str("timed out") },
        ),
    }
}

} // verus!
