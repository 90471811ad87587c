//! Table-creation statements for a Clickhouse sink: from a table name, the
//! field definitions of the committed stream's schema, and the sink's table
//! options, build the exact `CREATE TABLE` text the sink submits.

use vstd::prelude::*;

use vstd::string::StringExecFns;

use crate::types::FieldDefinition;
use crate::types::FieldDefinitionV;
use crate::types::FieldType;

verus! {

/// Per-table sink configuration: the table engine and the optional key,
/// partitioning, sampling, ordering and cluster clauses.
pub struct ClickhouseTableOptions {
    pub engine: Option<String>,
    pub primary_keys: Option<Vec<String>>,
    pub partition_by: Option<String>,
    pub sample_by: Option<String>,
    pub order_by: Option<Vec<String>>,
    pub cluster: Option<String>,
}

/// Mathematical value of a [`ClickhouseTableOptions`].
pub struct ClickhouseTableOptionsV {
    pub engine: Option<Seq<char>>,
    pub primary_keys: Option<Seq<Seq<char>>>,
    pub partition_by: Option<Seq<char>>,
    pub sample_by: Option<Seq<char>>,
    pub order_by: Option<Seq<Seq<char>>>,
    pub cluster: Option<Seq<char>>,
}

pub open spec fn spec_names_view(v: Seq<String>) -> Seq<Seq<char>> {
    v.map_values(|s: String| s@)
}

impl View for ClickhouseTableOptions {
    type V = ClickhouseTableOptionsV;

    open spec fn view(&self) -> ClickhouseTableOptionsV {
        ClickhouseTableOptionsV {
            engine: match self.engine {
                Option::Some(ref e) => Option::Some(e@),
                Option::None => Option::None,
            },
            primary_keys: match self.primary_keys {
                Option::Some(ref k) => Option::Some(spec_names_view(k@)),
                Option::None => Option::None,
            },
            partition_by: match self.partition_by {
                Option::Some(ref p) => Option::Some(p@),
                Option::None => Option::None,
            },
            sample_by: match self.sample_by {
                Option::Some(ref p) => Option::Some(p@),
                Option::None => Option::None,
            },
            order_by: match self.order_by {
                Option::Some(ref k) => Option::Some(spec_names_view(k@)),
                Option::None => Option::None,
            },
            cluster: match self.cluster {
                Option::Some(ref c) => Option::Some(c@),
                Option::None => Option::None,
            },
        }
    }
}

/// The Clickhouse column type of one field definition; a nullable field is
/// wrapped in `Nullable(...)`.
pub open spec fn spec_column_type(typ: FieldType, nullable: bool) -> Seq<char> {
    let base = match typ {
        FieldType::Int => "Int64"@,
        FieldType::UInt => "UInt64"@,
        FieldType::Bytes => "String"@,
        FieldType::Text => "String"@,
    };
    if nullable {
        "Nullable("@ + base + ")"@
    } else {
        base
    }
}

/// Maps one field definition to its Clickhouse column type.
pub fn map_field_to_type(field: &FieldDefinition) -> (r: String)
    ensures
        r@ == spec_column_type(field.typ, field.nullable),
{
    let base: &str = match field.typ {
        FieldType::Int => "Int64",
        FieldType::UInt => "UInt64",
        FieldType::Bytes => "String",
        FieldType::Text => "String",
    };
    if field.nullable {
        let mut out = String::from_str("Nullable(");
        out.append(base);
        out.append(")");
        out
    } else {
        String::from_str(base)
    }
}

/// `items` joined by `sep`, no separator before the first item.
pub open spec fn spec_joined(items: Seq<Seq<char>>, sep: Seq<char>) -> Seq<char>
    decreases items.len(),
{
    if items.len() == 0 {
        Seq::empty()
    } else if items.len() == 1 {
        items.first()
    } else {
        items.first() + sep + spec_joined(items.drop_first(), sep)
    }
}

proof fn lemma_joined_snoc(items: Seq<Seq<char>>, sep: Seq<char>, x: Seq<char>)
    requires
        items.len() >= 1,
    ensures
        spec_joined(items.push(x), sep) == spec_joined(items, sep) + sep + x,
    decreases items.len(),
{
    if items.len() == 1 {
        assert(items.push(x).drop_first() =~= seq![x]);
        assert(items.push(x).first() == items.first());
        assert(spec_joined(seq![x], sep) == x);
        assert(spec_joined(items.push(x), sep) =~= spec_joined(items, sep) + sep + x);
    } else {
        assert(items.push(x).drop_first() =~= items.drop_first().push(x));
        assert(items.push(x).first() == items.first());
        lemma_joined_snoc(items.drop_first(), sep, x);
        assert(spec_joined(items.push(x), sep) =~= spec_joined(items, sep) + sep + x);
    }
}

/// Joins a list of names with `", "`.
fn join_names(names: &Vec<String>) -> (r: String)
    ensures
        r@ == spec_joined(spec_names_view(names@), ", "@),
{
    let mut out = String::new();
    let mut i: usize = 0;
    while i < names.len()
        invariant
            i <= names@.len(),
            out@ == spec_joined(spec_names_view(names@).subrange(0, i as int), ", "@),
        decreases names@.len() - i,
    {
        if i > 0 {
            out.append(", ");
        }
        out.append(names[i].as_str());
        proof {
            let view = spec_names_view(names@);
            assert(view.subrange(0, i + 1) =~= view.subrange(0, i as int).push(view[i as int]));
            if i > 0 {
                lemma_joined_snoc(view.subrange(0, i as int), ", "@, view[i as int]);
            } else {
                assert(view.subrange(0, 1) =~= seq![view[0]]);
            }
        }
        i += 1;
    }
    assert(spec_names_view(names@).subrange(0, names@.len() as int) =~= spec_names_view(names@));
    out
}

/// The column declarations of the statement: one `name type` part per
/// field, the `sign` column when the engine is the collapsing one, and the
/// primary-key clause, joined by `",\n"`; the key clause is empty when no
/// primary keys are configured, as a trailing empty part.
pub open spec fn spec_column_parts(
    fields: Seq<FieldDefinitionV>,
    collapsing: bool,
    primary_keys: Option<Seq<Seq<char>>>,
) -> Seq<Seq<char>> {
    let decls = fields.map_values(|f: FieldDefinitionV| f.name + " "@ + spec_column_type(f.typ,
        f.nullable));
    let with_sign = if collapsing {
        decls.push("sign Int8"@)
    } else {
        decls
    };
    with_sign.push(
        match primary_keys {
            Option::Some(keys) => "PRIMARY KEY ("@ + spec_joined(keys, ", "@) + ")"@,
            Option::None => Seq::empty(),
        },
    )
}

/// The engine written into the statement: the collapsing engine carries its
/// sign column argument.
pub open spec fn spec_engine_name(engine: Seq<char>) -> Seq<char> {
    if engine == "CollapsingMergeTree"@ {
        "CollapsingMergeTree(sign)"@
    } else {
        engine
    }
}

/// The configured engine, or the default one.
pub open spec fn spec_engine_of(opts: Option<ClickhouseTableOptionsV>) -> Seq<char> {
    match opts {
        Option::Some(o) => match o.engine {
            Option::Some(e) => e,
            Option::None => "MergeTree()"@,
        },
        Option::None => "MergeTree()"@,
    }
}

pub open spec fn spec_cluster_clause(opts: Option<ClickhouseTableOptionsV>) -> Seq<char> {
    match opts {
        Option::Some(o) => match o.cluster {
            Option::Some(c) => "ON CLUSTER "@ + c + "\n"@,
            Option::None => Seq::empty(),
        },
        Option::None => Seq::empty(),
    }
}

pub open spec fn spec_order_by_clause(opts: Option<ClickhouseTableOptionsV>) -> Seq<char> {
    match opts {
        Option::Some(o) => match o.order_by {
            Option::Some(keys) => "ORDER BY ("@ + spec_joined(keys, ", "@) + ")\n"@,
            Option::None => Seq::empty(),
        },
        Option::None => Seq::empty(),
    }
}

pub open spec fn spec_partition_by_clause(opts: Option<ClickhouseTableOptionsV>) -> Seq<char> {
    match opts {
        Option::Some(o) => match o.partition_by {
            Option::Some(p) => "PARTITION BY "@ + p + "\n"@,
            Option::None => Seq::empty(),
        },
        Option::None => Seq::empty(),
    }
}

pub open spec fn spec_sample_by_clause(opts: Option<ClickhouseTableOptionsV>) -> Seq<char> {
    match opts {
        Option::Some(o) => match o.sample_by {
            Option::Some(p) => "SAMPLE BY "@ + p + "\n"@,
            Option::None => Seq::empty(),
        },
        Option::None => Seq::empty(),
    }
}

pub open spec fn spec_primary_keys_of(opts: Option<ClickhouseTableOptionsV>) -> Option<
    Seq<Seq<char>>,
> {
    match opts {
        Option::Some(o) => o.primary_keys,
        Option::None => Option::None,
    }
}

/// The whole statement: header with the table name and cluster clause, the
/// column parts, the engine, and the ordering, partitioning and sampling
/// clauses.
pub open spec fn spec_create_table_query(
    table_name: Seq<char>,
    fields: Seq<FieldDefinitionV>,
    opts: Option<ClickhouseTableOptionsV>,
) -> Seq<char> {
    let engine = spec_engine_of(opts);
    "CREATE TABLE IF NOT EXISTS "@ + table_name + " "@ + spec_cluster_clause(opts) + "(\n"@
        + spec_joined(spec_column_parts(fields, engine == "CollapsingMergeTree"@,
        spec_primary_keys_of(opts)), ",\n"@) + "\n)\nENGINE = "@ + spec_engine_name(engine)
        + "\n"@ + spec_order_by_clause(opts) + spec_partition_by_clause(opts)
        + spec_sample_by_clause(opts)
}

/// The options' mathematical value, when any were given.
pub open spec fn spec_opts_view(o: Option<ClickhouseTableOptions>) -> Option<
    ClickhouseTableOptionsV,
> {
    match o {
        Option::Some(x) => Option::Some(x@),
        Option::None => Option::None,
    }
}

/// Builds the joined column parts of the statement.
fn build_columns(
    fields: &Vec<FieldDefinition>,
    collapsing: bool,
    table_options: &Option<ClickhouseTableOptions>,
) -> (r: String)
    ensures
        r@ == spec_joined(
            spec_column_parts(fields@.map_values(|f: FieldDefinition| f@), collapsing,
            spec_primary_keys_of(spec_opts_view(*table_options))),
            ",\n"@,
        ),
{
    let mut columns = String::new();
    let mut i: usize = 0;
    while i < fields.len()
        invariant
            i <= fields@.len(),
            columns@ == spec_joined(fields@.map_values(|f: FieldDefinition| f@).subrange(
                0, i as int).map_values(|f: FieldDefinitionV| f.name + " "@ + spec_column_type(
                f.typ, f.nullable)), ",\n"@),
        decreases fields@.len() - i,
    {
        if i > 0 {
            columns.append(",\n");
        }
        let field = &fields[i];
        columns.append(field.name.as_str());
        columns.append(" ");
        let typ = map_field_to_type(field);
        columns.append(typ.as_str());
        proof {
            let fv = fields@.map_values(|f: FieldDefinition| f@);
            let decl = |f: FieldDefinitionV| f.name + " "@ + spec_column_type(f.typ, f.nullable);
            let prev = fv.subrange(0, i as int).map_values(decl);
            assert(fv.subrange(0, i + 1) =~= fv.subrange(0, i as int).push(fv[i as int]));
            assert(fv.subrange(0, i + 1).map_values(decl) =~= prev.push(decl(fv[i as int])));
            if i > 0 {
                lemma_joined_snoc(prev, ",\n"@, decl(fv[i as int]));
            } else {
                assert(prev.push(decl(fv[i as int])) =~= seq![decl(fv[i as int])]);
            }
            assert(columns@ =~= spec_joined(fv.subrange(0, i + 1).map_values(decl), ",\n"@));
        }
        i += 1;
    }
    proof {
        let fv = fields@.map_values(|f: FieldDefinition| f@);
        assert(fv.subrange(0, fv.len() as int) =~= fv);
    }
    if collapsing {
        if fields.len() > 0 {
            columns.append(",\n");
        }
        columns.append("sign Int8");
        proof {
            let fv = fields@.map_values(|f: FieldDefinition| f@);
            let decl = |f: FieldDefinitionV| f.name + " "@ + spec_column_type(f.typ, f.nullable);
            let decls = fv.map_values(decl);
            if fv.len() > 0 {
                lemma_joined_snoc(decls, ",\n"@, "sign Int8"@);
            } else {
                assert(decls.push("sign Int8"@) =~= seq!["sign Int8"@]);
            }
            assert(columns@ =~= spec_joined(decls.push("sign Int8"@), ",\n"@));
        }
    }
    // The primary-key clause is one more part, empty when not configured.
    let mut key_clause = String::new();
    match table_options {
        Option::Some(o) => match o.primary_keys {
            Option::Some(ref keys) => {
                key_clause.append("PRIMARY KEY (");
                let joined = join_names(keys);
                key_clause.append(joined.as_str());
                key_clause.append(")");
            },
            Option::None => {},
        },
        Option::None => {},
    }
    if collapsing || fields.len() > 0 {
        columns.append(",\n");
    }
    columns.append(key_clause.as_str());
    proof {
        let fv = fields@.map_values(|f: FieldDefinition| f@);
        let decl = |f: FieldDefinitionV| f.name + " "@ + spec_column_type(f.typ, f.nullable);
        let with_sign = if collapsing {
            fv.map_values(decl).push("sign Int8"@)
        } else {
            fv.map_values(decl)
        };
        if with_sign.len() > 0 {
            lemma_joined_snoc(with_sign, ",\n"@, key_clause@);
        } else {
            assert(with_sign.push(key_clause@) =~= seq![key_clause@]);
        }
        assert(spec_column_parts(fv, collapsing, spec_primary_keys_of(spec_opts_view(
            *table_options))) =~= with_sign.push(key_clause@));
        assert(columns@ =~= spec_joined(with_sign.push(key_clause@), ",\n"@));
    }
    columns
}

/// Builds the cluster clause of the header, empty when none is configured.
fn build_cluster_clause(table_options: &Option<ClickhouseTableOptions>) -> (r: String)
    ensures
        r@ == spec_cluster_clause(spec_opts_view(*table_options)),
{
    let mut out = String::new();
    match table_options {
        Option::Some(o) => match o.cluster {
            Option::Some(ref c) => {
                out.append("ON CLUSTER ");
                out.append(c.as_str());
                out.append("\n");
                assert(out@ =~= spec_cluster_clause(spec_opts_view(*table_options)));
            },
            Option::None => {},
        },
        Option::None => {},
    }
    out
}

/// Builds the trailing ordering, partitioning and sampling clauses.
fn build_trailing_clauses(table_options: &Option<ClickhouseTableOptions>) -> (r: String)
    ensures
        r@ == spec_order_by_clause(spec_opts_view(*table_options)) + spec_partition_by_clause(
            spec_opts_view(*table_options)) + spec_sample_by_clause(spec_opts_view(
            *table_options)),
{
    let mut out = String::new();
    match table_options {
        Option::Some(o) => {
            match o.order_by {
                Option::Some(ref keys) => {
                    out.append("ORDER BY (");
                    let joined = join_names(keys);
                    out.append(joined.as_str());
                    out.append(")\n");
                },
                Option::None => {},
            }
            match o.partition_by {
                Option::Some(ref p) => {
                    out.append("PARTITION BY ");
                    out.append(p.as_str());
                    out.append("\n");
                },
                Option::None => {},
            }
            match o.sample_by {
                Option::Some(ref p) => {
                    out.append("SAMPLE BY ");
                    out.append(p.as_str());
                    out.append("\n");
                },
                Option::None => {},
            }
        },
        Option::None => {},
    }
    assert(out@ =~= spec_order_by_clause(spec_opts_view(*table_options))
        + spec_partition_by_clause(spec_opts_view(*table_options)) + spec_sample_by_clause(
        spec_opts_view(*table_options)));
    out
}

/// Builds the `CREATE TABLE` statement a Clickhouse sink submits for the
/// stream it writes.
pub fn get_create_table_query(
    table_name: &str,
    fields: &Vec<FieldDefinition>,
    table_options: Option<ClickhouseTableOptions>,
) -> (r: String)
    ensures
        r@ == spec_create_table_query(table_name@, fields@.map_values(|f: FieldDefinition| f@),
            spec_opts_view(table_options)),
{
    let engine: String = match table_options {
        Option::Some(ref o) => match o.engine {
            Option::Some(ref e) => e.clone(),
            Option::None => String::from_str("MergeTree()"),
        },
        Option::None => String::from_str("MergeTree()"),
    };
    proof {
        assert(engine@ == spec_engine_of(spec_opts_view(table_options)));
    }
    let collapsing: bool = engine == String::from_str("CollapsingMergeTree");
    let columns = build_columns(fields, collapsing, &table_options);
    let cluster = build_cluster_clause(&table_options);
    let trailing = build_trailing_clauses(&table_options);

    let mut out = String::from_str("CREATE TABLE IF NOT EXISTS ");
    out.append(table_name);
    out.append(" ");
    out.append(cluster.as_str());
    out.append("(\n");
    out.append(columns.as_str());
    out.append("\n)\nENGINE = ");
    if collapsing {
        out.append("CollapsingMergeTree(sign)");
    } else {
        out.append(engine.as_str());
    }
    out.append("\n");
    out.append(trailing.as_str());
    proof {
        assert(out@ =~= spec_create_table_query(table_name@, fields@.map_values(
            |f: FieldDefinition| f@), spec_opts_view(table_options)));
    }
    out
}

} // verus!
