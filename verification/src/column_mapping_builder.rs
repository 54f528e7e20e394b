use vstd::prelude::*;

use crate::commit::{CommitProperties, DEFAULT_RETRIES};
use crate::errors::DeltaTableError;
use crate::generated_columns::{map_fields_ids, mapped_fields, missing_ids};
use crate::schema::{collapse_by_name, FieldView, StructType};
use crate::strmap::StrMap;
use crate::table::{
    config_text, config_value, config_view, lemma_config_text_view, max_column_id_key, mode_key,
    ColumnMappingMode, DeltaTableState, Protocol, ProtocolView, TableFeature,
};
use crate::text::{decimal, i64_to_string, law_decimal_round_trip, parse_i64, signed_decimal_value};

verus! {

/// Builds the change that turns column mapping on for a table. `L` is the handle of the
/// table's log, `H` the handler that is told of the commit.
pub struct ColumnMappingBuilder<L, H> {
    pub snapshot: DeltaTableState,
    pub log_store: L,
    pub mode: Option<ColumnMappingMode>,
    pub rename_columns: Vec<(String, String)>,
    pub drop_columns: Vec<String>,
    pub commit_properties: CommitProperties,
    pub custom_execute_handler: Option<H>,
}

/// What turning column mapping on leaves the table with, and the properties that the
/// commit records.
pub struct ColumnMappingPlan {
    pub configuration: StrMap<Option<String>>,
    pub protocol: Protocol,
    pub schema: StructType,
    pub properties: StrMap<String>,
}

/// The mode that a configuration sets: `name` and `id` name theirs, anything else or
/// nothing means no column mapping.
pub open spec fn configured_mode(config: Map<Seq<char>, Option<String>>) -> ColumnMappingMode {
    match config_text(config, mode_key()) {
        Some(t) => if t == "name"@ {
            ColumnMappingMode::Name
        } else if t == "id"@ {
            ColumnMappingMode::Id
        } else {
            ColumnMappingMode::NoMapping
        },
        None => ColumnMappingMode::NoMapping,
    }
}

/// The text that names a mode in the configuration.
pub open spec fn mode_text(mode: ColumnMappingMode) -> Seq<char> {
    match mode {
        ColumnMappingMode::NoMapping => "none"@,
        ColumnMappingMode::Name => "name"@,
        ColumnMappingMode::Id => "id"@,
    }
}

/// The largest column id that the configuration records where it holds an `i64`, and 15
/// otherwise.
pub open spec fn configured_max_column_id(config: Map<Seq<char>, Option<String>>) -> int {
    match config_text(config, max_column_id_key()) {
        Some(t) => match signed_decimal_value(t) {
            Some(v) => if i64::MIN <= v <= i64::MAX {
                v
            } else {
                15
            },
            None => 15,
        },
        None => 15,
    }
}

/// Whether turning `mode` on changes the table: it has no column mapping yet, and `mode`
/// is a mapping mode.
pub open spec fn mapping_changes(config: Map<Seq<char>, Option<String>>, mode: ColumnMappingMode) -> bool {
    configured_mode(config) == ColumnMappingMode::NoMapping && mode != ColumnMappingMode::NoMapping
}

/// The configuration once `mode` is on: the mode, and the largest column id as recorded.
pub open spec fn mapped_configuration(config: Map<Seq<char>, Option<String>>, mode: ColumnMappingMode) -> Map<
    Seq<char>,
    Option<Seq<char>>,
> {
    config_view(config).insert(mode_key(), Some(mode_text(mode))).insert(
        max_column_id_key(),
        Some(decimal(configured_max_column_id(config))),
    )
}

/// The protocol once column mapping is on: readers of version 2 and writers of version
/// 5 that know column mapping and no other feature.
pub open spec fn mapping_protocol() -> ProtocolView {
    ProtocolView {
        min_reader_version: 2,
        min_writer_version: 5,
        reader_features: Some(seq![TableFeature::ColumnMapping]),
        writer_features: Some(seq![TableFeature::ColumnMapping]),
    }
}

/// The schema once column mapping is on: the top-level fields that lack an id numbered
/// from 1, and a field that lacks a physical name given `col-<n>`, `n` being the last
/// id handed out.
pub open spec fn mapping_schema(schema: Seq<FieldView>) -> Seq<FieldView> {
    collapse_by_name(mapped_fields(schema, 1, false))
}

/// The properties that the commit records: the mode and the largest column id.
pub open spec fn mapping_properties(config: Map<Seq<char>, Option<String>>, mode: ColumnMappingMode) -> Map<
    Seq<char>,
    Seq<char>,
> {
    map![
        mode_key() => mode_text(mode),
        max_column_id_key() => decimal(configured_max_column_id(config)),
    ]
}

/// What a map of texts denotes.
pub open spec fn texts_view(m: StrMap<String>) -> Map<Seq<char>, Seq<char>> {
    m@.map_values(|s: String| s@)
}

impl<L, H> ColumnMappingBuilder<L, H> {
    /// A builder with no mode chosen yet.
    pub fn new(log_store: L, snapshot: DeltaTableState) -> (r: Self)
        ensures
            r.snapshot == snapshot,
            r.log_store == log_store,
            r.mode is None,
            r.rename_columns@.len() == 0,
            r.drop_columns@.len() == 0,
            r.commit_properties.app_metadata@ == Map::<Seq<char>, String>::empty(),
            r.commit_properties.max_retries == DEFAULT_RETRIES,
            r.commit_properties.create_checkpoint,
            r.commit_properties.cleanup_expired_logs is None,
            r.custom_execute_handler is None,
    {
        ColumnMappingBuilder {
            snapshot,
            log_store,
            mode: None,
            rename_columns: Vec::new(),
            drop_columns: Vec::new(),
            commit_properties: CommitProperties::default(),
            custom_execute_handler: None,
        }
    }

    /// Chooses the mode.
    pub fn with_mode(self, mode: ColumnMappingMode) -> (r: Self)
        ensures
            r == (ColumnMappingBuilder { mode: Some(mode), ..self }),
    {
        let mut b = self;
        b.mode = Some(mode);
        b
    }

    /// Records a rename of a column.
    pub fn with_rename_column(self, old_name: String, new_name: String) -> (r: Self)
        ensures
            r == (ColumnMappingBuilder { rename_columns: r.rename_columns, ..self }),
            r.rename_columns@ == self.rename_columns@.push((old_name, new_name)),
    {
        let mut b = self;
        b.rename_columns.push((old_name, new_name));
        b
    }

    /// Records a drop of a column.
    pub fn with_drop_column(self, column_name: String) -> (r: Self)
        ensures
            r == (ColumnMappingBuilder { drop_columns: r.drop_columns, ..self }),
            r.drop_columns@ == self.drop_columns@.push(column_name),
    {
        let mut b = self;
        b.drop_columns.push(column_name);
        b
    }

    /// Sets the properties of the commit.
    pub fn with_commit_properties(self, commit_properties: CommitProperties) -> (r: Self)
        ensures
            r == (ColumnMappingBuilder { commit_properties, ..self }),
    {
        let mut b = self;
        b.commit_properties = commit_properties;
        b
    }

    /// Sets the handler that is told of the commit.
    pub fn with_custom_execute_handler(self, handler: H) -> (r: Self)
        ensures
            r == (ColumnMappingBuilder { custom_execute_handler: Some(handler), ..self }),
    {
        let mut b = self;
        b.custom_execute_handler = Some(handler);
        b
    }

    /// The largest column id that the table's configuration records, 15 where it records
    /// none that reads as an `i64`.
    pub fn get_max_column_id(&self) -> (r: Result<i64, DeltaTableError>)
        ensures
            r matches Ok(n) && n == configured_max_column_id(self.snapshot.configuration@),
    {
        let n = match config_value(&self.snapshot.configuration, "delta.columnMapping.maxColumnId") {
            Some(v) => match parse_i64(v.as_str()) {
                Some(n) => n,
                None => 15,
            },
            None => 15,
        };
        Ok(n)
    }

    /// The schema with column mapping metadata on its top-level fields.
    pub fn add_column_mapping_metadata(&self, schema: &StructType, mode: ColumnMappingMode) -> (r: Result<
        StructType,
        DeltaTableError,
    >)
        requires
            1 + missing_ids(schema@) <= i64::MAX,
        ensures
            r matches Ok(s) && s@ == mapping_schema(schema@),
    {
        Ok(StructType::new(map_fields_ids(&schema.fields, 1, false)))
    }
}


impl<L, H> ColumnMappingBuilder<L, H> {
    /// Works out the change that turns `mode` on: `None` where the table has column
    /// mapping already or `mode` is no mapping, so that nothing changes. The commit of the
    /// result is left to the caller.
    pub fn enable_column_mapping(&self, mode: ColumnMappingMode) -> (r: Result<
        Option<ColumnMappingPlan>,
        DeltaTableError,
    >)
        requires
            1 + missing_ids(self.snapshot.schema@) <= i64::MAX,
        ensures
            r matches Ok(o) && if mapping_changes(self.snapshot.configuration@, mode) {
                o matches Some(p) && config_view(p.configuration@) == mapped_configuration(
                    self.snapshot.configuration@,
                    mode,
                ) && p.protocol@ == mapping_protocol() && p.schema@ == mapping_schema(self.snapshot.schema@)
                    && texts_view(p.properties) == mapping_properties(self.snapshot.configuration@, mode)
            } else {
                o is None
            },
    {
        let current = match config_value(&self.snapshot.configuration, "delta.columnMapping.mode") {
            Some(v) => if *v.as_str() == *"name" {
                ColumnMappingMode::Name
            } else if *v.as_str() == *"id" {
                ColumnMappingMode::Id
            } else {
                ColumnMappingMode::NoMapping
            },
            None => ColumnMappingMode::NoMapping,
        };
        proof {
            reveal_strlit("name");
            reveal_strlit("id");
            assert(current == configured_mode(self.snapshot.configuration@));
        }
        if !(current == ColumnMappingMode::NoMapping) || mode == ColumnMappingMode::NoMapping {
            return Ok(None);
        }
        let mode_str = match mode {
            ColumnMappingMode::NoMapping => "none",
            ColumnMappingMode::Name => "name",
            ColumnMappingMode::Id => "id",
        };
        let max_column_id = match self.get_max_column_id() {
            Ok(n) => n,
            Err(e) => return Err(e),
        };
        let mut configuration = self.snapshot.configuration.clone();
        configuration.insert(String::from_str("delta.columnMapping.mode"), Some(String::from_str(mode_str)));
        configuration.insert(
            String::from_str("delta.columnMapping.maxColumnId"),
            Some(i64_to_string(max_column_id)),
        );
        let mut reader_features: Vec<TableFeature> = Vec::new();
        reader_features.push(TableFeature::ColumnMapping);
        let mut writer_features: Vec<TableFeature> = Vec::new();
        writer_features.push(TableFeature::ColumnMapping);
        let protocol = Protocol {
            min_reader_version: 2,
            min_writer_version: 5,
            reader_features: Some(reader_features),
            writer_features: Some(writer_features),
        };
        let schema = match self.add_column_mapping_metadata(&self.snapshot.schema, mode) {
            Ok(s) => s,
            Err(e) => return Err(e),
        };
        let mut properties: StrMap<String> = StrMap::new();
        properties.insert(String::from_str("delta.columnMapping.mode"), String::from_str(mode_str));
        properties.insert(String::from_str("delta.columnMapping.maxColumnId"), i64_to_string(max_column_id));
        proof {
            assert(mode_str@ == mode_text(mode));
            assert(config_view(configuration@) =~= mapped_configuration(self.snapshot.configuration@, mode));
            assert(protocol@.reader_features == Some(seq![TableFeature::ColumnMapping]));
            assert(protocol@.writer_features == Some(seq![TableFeature::ColumnMapping]));
            assert(texts_view(properties) =~= mapping_properties(self.snapshot.configuration@, mode));
        }
        Ok(Some(ColumnMappingPlan { configuration, protocol, schema, properties }))
    }

    /// Works out the change of the chosen mode, `name` where none was chosen.
    pub fn plan(&self) -> (r: Result<Option<ColumnMappingPlan>, DeltaTableError>)
        requires
            1 + missing_ids(self.snapshot.schema@) <= i64::MAX,
        ensures
            ({
                let mode = match self.mode {
                    Some(m) => m,
                    None => ColumnMappingMode::Name,
                };
                r matches Ok(o) && if mapping_changes(self.snapshot.configuration@, mode) {
                    o matches Some(p) && config_view(p.configuration@) == mapped_configuration(
                        self.snapshot.configuration@,
                        mode,
                    ) && p.protocol@ == mapping_protocol() && p.schema@ == mapping_schema(self.snapshot.schema@)
                        && texts_view(p.properties) == mapping_properties(self.snapshot.configuration@, mode)
                } else {
                    o is None
                }
            }),
    {
        let mode = match self.mode {
            Some(m) => m,
            None => ColumnMappingMode::Name,
        };
        self.enable_column_mapping(mode)
    }
}


/// Turning column mapping on once is enough: in the configuration it leaves, no mode
/// turns it on again.
pub proof fn law_enabling_mapping_is_idempotent(
    before: Map<Seq<char>, Option<String>>,
    mode: ColumnMappingMode,
    after: Map<Seq<char>, Option<String>>,
    again: ColumnMappingMode,
)
    requires
        mapping_changes(before, mode),
        config_view(after) == mapped_configuration(before, mode),
    ensures
        !mapping_changes(after, again),
{
    reveal_strlit("delta.columnMapping.mode");
    reveal_strlit("delta.columnMapping.maxColumnId");
    reveal_strlit("name");
    reveal_strlit("id");
    reveal_strlit("none");
    lemma_config_text_view(after, mode_key());
    assert(mode_key().len() != max_column_id_key().len());
    assert(config_text(after, mode_key()) == Some(mode_text(mode)));
}

/// Turning column mapping on keeps the largest column id that the configuration
/// records: reading it back from the new configuration gives what the old one gave.
pub proof fn law_enabling_mapping_keeps_max_column_id(
    before: Map<Seq<char>, Option<String>>,
    mode: ColumnMappingMode,
    after: Map<Seq<char>, Option<String>>,
)
    requires
        config_view(after) == mapped_configuration(before, mode),
    ensures
        configured_max_column_id(after) == configured_max_column_id(before),
{
    lemma_config_text_view(after, max_column_id_key());
    law_decimal_round_trip(configured_max_column_id(before));
    assert(config_text(after, max_column_id_key()) == Some(decimal(configured_max_column_id(before))));
}

} // verus!
