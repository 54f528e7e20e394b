use vstd::prelude::*;

use crate::schema::StructType;
use crate::strmap::StrMap;

verus! {

/// A feature of the Delta protocol that a table may declare.
#[derive(Debug)]
pub enum TableFeature {
    AppendOnly,
    Invariants,
    CheckConstraints,
    ChangeDataFeed,
    GeneratedColumns,
    IdentityColumns,
    InCommitTimestamp,
    RowTracking,
    DomainMetadata,
    ClusteredTable,
    ColumnMapping,
    DeletionVectors,
    TimestampWithoutTimezone,
    TypeWidening,
    VacuumProtocolCheck,
    V2Checkpoint,
    VariantType,
    /// A feature this library does not know, by its name.
    Unknown(String),
}

impl Clone for TableFeature {
    fn clone(&self) -> (r: Self)
        ensures
            r == *self,
    {
        match self {
            TableFeature::AppendOnly => TableFeature::AppendOnly,
            TableFeature::Invariants => TableFeature::Invariants,
            TableFeature::CheckConstraints => TableFeature::CheckConstraints,
            TableFeature::ChangeDataFeed => TableFeature::ChangeDataFeed,
            TableFeature::GeneratedColumns => TableFeature::GeneratedColumns,
            TableFeature::IdentityColumns => TableFeature::IdentityColumns,
            TableFeature::InCommitTimestamp => TableFeature::InCommitTimestamp,
            TableFeature::RowTracking => TableFeature::RowTracking,
            TableFeature::DomainMetadata => TableFeature::DomainMetadata,
            TableFeature::ClusteredTable => TableFeature::ClusteredTable,
            TableFeature::ColumnMapping => TableFeature::ColumnMapping,
            TableFeature::DeletionVectors => TableFeature::DeletionVectors,
            TableFeature::TimestampWithoutTimezone => TableFeature::TimestampWithoutTimezone,
            TableFeature::TypeWidening => TableFeature::TypeWidening,
            TableFeature::VacuumProtocolCheck => TableFeature::VacuumProtocolCheck,
            TableFeature::V2Checkpoint => TableFeature::V2Checkpoint,
            TableFeature::VariantType => TableFeature::VariantType,
            TableFeature::Unknown(s) => TableFeature::Unknown(s.clone()),
        }
    }
}

/// The protocol of a table: the versions a reader and a writer must support, and the
/// features they must know.
#[derive(Debug)]
pub struct Protocol {
    pub min_reader_version: i32,
    pub min_writer_version: i32,
    pub reader_features: Option<Vec<TableFeature>>,
    pub writer_features: Option<Vec<TableFeature>>,
}

/// Whether a list of features holds column mapping.
pub open spec fn has_column_mapping(fs: Seq<TableFeature>) -> bool {
    exists|i: int| 0 <= i < fs.len() && #[trigger] fs[i] == TableFeature::ColumnMapping
}

/// Whether a list of features holds generated columns.
pub open spec fn has_generated_columns(fs: Seq<TableFeature>) -> bool {
    exists|i: int| 0 <= i < fs.len() && #[trigger] fs[i] == TableFeature::GeneratedColumns
}

/// Copies a list of features.
pub fn clone_features(fs: &Vec<TableFeature>) -> (r: Vec<TableFeature>)
    ensures
        r@ == fs@,
{
    let mut r: Vec<TableFeature> = Vec::new();
    let mut i: usize = 0;
    while i < fs.len()
        invariant
            i <= fs@.len(),
            r@ =~= fs@.subrange(0, i as int),
        decreases fs.len() - i,
    {
        r.push(fs[i].clone());
        i = i + 1;
    }
    assert(r@ =~= fs@);
    r
}

/// Whether the features hold column mapping.
pub fn contains_column_mapping(fs: &Vec<TableFeature>) -> (b: bool)
    ensures
        b == has_column_mapping(fs@),
{
    let mut i: usize = 0;
    while i < fs.len()
        invariant
            i <= fs@.len(),
            forall|j: int| 0 <= j < i ==> fs@[j] != TableFeature::ColumnMapping,
        decreases fs.len() - i,
    {
        if let TableFeature::ColumnMapping = &fs[i] {
            return true;
        }
        i = i + 1;
    }
    false
}

/// Whether the features hold generated columns.
pub fn contains_generated_columns(fs: &Vec<TableFeature>) -> (b: bool)
    ensures
        b == has_generated_columns(fs@),
{
    let mut i: usize = 0;
    while i < fs.len()
        invariant
            i <= fs@.len(),
            forall|j: int| 0 <= j < i ==> fs@[j] != TableFeature::GeneratedColumns,
        decreases fs.len() - i,
    {
        if let TableFeature::GeneratedColumns = &fs[i] {
            return true;
        }
        i = i + 1;
    }
    false
}

/// The features with column mapping added, as inserting into a set does: kept as they
/// are where column mapping is among them already.
pub open spec fn with_column_mapping_feature(fs: Seq<TableFeature>) -> Seq<TableFeature> {
    if has_column_mapping(fs) {
        fs
    } else {
        fs.push(TableFeature::ColumnMapping)
    }
}

/// Adding column mapping to a list of features keeps every feature it listed, adds
/// column mapping, and adds nothing else.
pub proof fn law_column_mapping_feature_keeps_features(fs: Seq<TableFeature>)
    ensures
        forall|f: TableFeature| fs.contains(f) ==> #[trigger] with_column_mapping_feature(fs).contains(f),
        with_column_mapping_feature(fs).contains(TableFeature::ColumnMapping),
        forall|f: TableFeature|
            #[trigger] with_column_mapping_feature(fs).contains(f) ==> fs.contains(f) || f == TableFeature::ColumnMapping,
{
    let n = with_column_mapping_feature(fs);
    if has_column_mapping(fs) {
        let i = choose|i: int| 0 <= i < fs.len() && #[trigger] fs[i] == TableFeature::ColumnMapping;
        assert(n[i] == TableFeature::ColumnMapping);
    } else {
        assert(n[fs.len() as int] == TableFeature::ColumnMapping);
        assert forall|f: TableFeature| fs.contains(f) implies #[trigger] n.contains(f) by {
            let i = choose|i: int| 0 <= i < fs.len() && fs[i] == f;
            assert(n[i] == f);
        }
        assert forall|f: TableFeature| #[trigger] n.contains(f) implies fs.contains(f) || f == TableFeature::ColumnMapping by {
            let i = choose|i: int| 0 <= i < n.len() && n[i] == f;
            if i < fs.len() {
                assert(fs[i] == f);
            }
        }
    }
}

/// Adds column mapping to a list of features, unless it is there.
pub fn insert_column_mapping(fs: &mut Vec<TableFeature>)
    ensures
        final(fs)@ == with_column_mapping_feature(old(fs)@),
{
    if !contains_column_mapping(fs) {
        fs.push(TableFeature::ColumnMapping);
    }
}

/// What a list of features that may be absent denotes.
pub open spec fn features_view(o: Option<Vec<TableFeature>>) -> Option<Seq<TableFeature>> {
    match o {
        Some(v) => Some(v@),
        None => None,
    }
}

/// What a protocol denotes.
pub struct ProtocolView {
    pub min_reader_version: int,
    pub min_writer_version: int,
    pub reader_features: Option<Seq<TableFeature>>,
    pub writer_features: Option<Seq<TableFeature>>,
}

impl View for Protocol {
    type V = ProtocolView;

    open spec fn view(&self) -> ProtocolView {
        ProtocolView {
            min_reader_version: self.min_reader_version as int,
            min_writer_version: self.min_writer_version as int,
            reader_features: features_view(self.reader_features),
            writer_features: features_view(self.writer_features),
        }
    }
}

impl Clone for Protocol {
    fn clone(&self) -> (r: Self)
        ensures
            r@ == self@,
    {
        Protocol {
            min_reader_version: self.min_reader_version,
            min_writer_version: self.min_writer_version,
            reader_features: match &self.reader_features {
                Some(v) => Some(clone_features(v)),
                None => None,
            },
            writer_features: match &self.writer_features {
                Some(v) => Some(clone_features(v)),
                None => None,
            },
        }
    }
}

/// What a table's state holds that the operations here read: its configuration, its
/// protocol and its schema.
#[derive(Debug)]
pub struct DeltaTableState {
    pub configuration: StrMap<Option<String>>,
    pub protocol: Protocol,
    pub schema: StructType,
}

/// The column mapping modes of a table.
#[derive(Clone, Copy, Debug, PartialEq, Eq, Structural)]
pub enum ColumnMappingMode {
    /// No column mapping: the mode `none`.
    NoMapping,
    Id,
    Name,
}

/// The text of the configuration key `key`, where it is set to a value.
pub open spec fn config_text(config: Map<Seq<char>, Option<String>>, key: Seq<char>) -> Option<Seq<char>> {
    match config.get(key) {
        Some(Some(v)) => Some(v@),
        _ => None,
    }
}

/// Looks up the text of a configuration key that is set to a value.
pub fn config_value<'a>(config: &'a StrMap<Option<String>>, key: &str) -> (r: Option<&'a String>)
    ensures
        match r {
            Some(v) => config_text(config@, key@) == Some(v@),
            None => config_text(config@, key@) is None,
        },
{
    match config.get(key) {
        Some(Some(v)) => Some(v),
        _ => None,
    }
}

/// What a configuration denotes: each key's value by its text, or `None` where the key
/// is set to no value.
pub open spec fn config_view(config: Map<Seq<char>, Option<String>>) -> Map<Seq<char>, Option<Seq<char>>> {
    config.map_values(|v: Option<String>| match v {
        Some(s) => Some(s@),
        None => None,
    })
}

/// The text of a configuration key is what the configuration's view holds for it.
pub proof fn lemma_config_text_view(config: Map<Seq<char>, Option<String>>, key: Seq<char>)
    ensures
        config_text(config, key) == if config_view(config).contains_key(key) {
            config_view(config)[key]
        } else {
            None
        },
{
}

impl Clone for StrMap<Option<String>> {
    fn clone(&self) -> (r: Self)
        ensures
            r@ == self@,
    {
        let mut entries: Vec<(String, Option<String>)> = Vec::new();
        let mut i: usize = 0;
        while i < self.entries.len()
            invariant
                i <= self.entries@.len(),
                entries@ =~= self.entries@.subrange(0, i as int),
            decreases self.entries.len() - i,
        {
            let value = match &self.entries[i].1 {
                Some(v) => Some(v.clone()),
                None => None,
            };
            entries.push((self.entries[i].0.clone(), value));
            i = i + 1;
        }
        assert(entries@ =~= self.entries@);
        StrMap { entries }
    }
}

/// The features a protocol lists, none where it lists no set of them.
pub open spec fn features_or_empty(o: Option<Seq<TableFeature>>) -> Seq<TableFeature> {
    match o {
        Some(fs) => fs,
        None => Seq::empty(),
    }
}

/// The configuration key of the column mapping mode.
pub open spec fn mode_key() -> Seq<char> {
    "delta.columnMapping.mode"@
}

/// The configuration key of the largest column id handed out.
pub open spec fn max_column_id_key() -> Seq<char> {
    "delta.columnMapping.maxColumnId"@
}

/// Whether the configuration enables column mapping: its mode is set to anything but
/// `none`.
pub open spec fn column_mapping_enabled(config: Map<Seq<char>, Option<String>>) -> bool {
    match config_text(config, mode_key()) {
        Some(m) => m != "none"@,
        None => false,
    }
}

/// Whether the configuration of the table enables column mapping.
pub fn is_column_mapping_enabled(config: &StrMap<Option<String>>) -> (b: bool)
    ensures
        b == column_mapping_enabled(config@),
{
    match config_value(config, "delta.columnMapping.mode") {
        Some(m) => !(*m.as_str() == *"none"),
        None => false,
    }
}

} // verus!
