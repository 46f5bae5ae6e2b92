use std::collections::HashMap;

use stata_parquet::batch::{
    effective_batch_size, import_thread_count, import_window, n_batches, plan_batches,
    TransferCounters,
};
use stata_parquet::convert::{
    date_from_host, date_to_host, datetime_from_host, datetime_to_host, time_from_host,
    time_to_host, to_host_value, EngineValue, HostValue,
};
use stata_parquet::downcast::{find_optimal_integer_type, is_better_type, parse_data_type, shrink_target};
use stata_parquet::error::TransferError;
use stata_parquet::long_value::{escape_long_value, side_file_lines, LongValueRecord};
use stata_parquet::mapping::{
    format_kind_of, map_polars_to_stata, map_stata_to_polars, match_var_format_stata, EngineType, MappingError,
    StataType, TimeUnit,
};
use stata_parquet::output::{
    compression_level_from, is_hive_directory_name, overwrite_action, parquet_options, CompressionChoice,
    OverwriteAction,
};
use stata_parquet::params::ReadParams;
use stata_parquet::promotion::{
    column_host_values, largest_magnitude, needs_numeric_promotion, needs_string_promotion,
    plan_numeric_widening, plan_string_widening, plan_variable, string_probe, widest_text, HostAnswer,
    ProbeAction, StataDataType, TypeProbe, VariableAction,
};
use stata_parquet::reader::{
    column_read_kind, declared_type_of, find_str_length_by_name, stata_column_info_to_schema, BatchWindow,
    BinaryWarnings, ReadKind, StataColumnInfo, StataDataScan,
};
use stata_parquet::rename::{generate_rename_map, process_name};
use stata_parquet::selection::{parse_sort, resolve_columns, strategy_from_arg};
use stata_parquet::text::split_words;
use stata_parquet::utilities::{
    admitted_strategy, determine_parallelization_strategy, get_thread_count, parse_count, row_chunk_size,
    use_single_thread, ParallelizationStrategy,
};
use stata_parquet::writer::{
    plan_batch_writes, plan_by_column, plan_by_row, prepare_column, write_row_range, BatchColumn,
    CellWrite, ColumnInfo, PreparedColumn, WriteColumn,
};

fn apply(host: &mut HashMap<(usize, usize), HostValue>, plan: &Vec<Vec<CellWrite>>) {
    for worker in plan {
        for w in worker {
            host.insert((w.column, w.row), w.value.clone());
        }
    }
}

fn sample_columns(height: usize) -> Vec<WriteColumn> {
    let ids: Vec<EngineValue> = (0..height).map(|i| EngineValue::Int(i as i64 * 7 - 3)).collect();
    let flags: Vec<EngineValue> = (0..height).map(|i| EngineValue::Boolean(i % 3 == 0)).collect();
    let dates: Vec<EngineValue> = (0..height).map(|i| EngineValue::Date(i as i32 - 5)).collect();
    vec![
        WriteColumn { host_index: 0, dtype: EngineType::Int32, values: ids },
        WriteColumn { host_index: 4, dtype: EngineType::Boolean, values: flags },
        WriteColumn { host_index: 2, dtype: EngineType::Date, values: dates },
    ]
}

#[test]
fn type_map_round_trips_every_host_type() {
    let all = [
        StataType::Float,
        StataType::Double,
        StataType::Date,
        StataType::Time,
        StataType::DateTime,
        StataType::String,
    ];
    for t in all {
        assert_eq!(map_polars_to_stata(&map_stata_to_polars(&t), 10), Ok(t));
    }
    assert_eq!(map_polars_to_stata(&map_stata_to_polars(&StataType::Strl), 5000), Ok(StataType::Strl));
}

#[test]
fn type_map_rules() {
    assert_eq!(map_polars_to_stata(&EngineType::Boolean, 0), Ok(StataType::Byte));
    assert_eq!(map_polars_to_stata(&EngineType::Int8, 0), Ok(StataType::Int));
    assert_eq!(map_polars_to_stata(&EngineType::UInt8, 0), Ok(StataType::Int));
    assert_eq!(map_polars_to_stata(&EngineType::Int16, 0), Ok(StataType::Long));
    assert_eq!(map_polars_to_stata(&EngineType::UInt16, 0), Ok(StataType::Long));
    assert_eq!(map_polars_to_stata(&EngineType::Int32, 0), Ok(StataType::Double));
    assert_eq!(map_polars_to_stata(&EngineType::UInt32, 0), Ok(StataType::Double));
    assert_eq!(map_polars_to_stata(&map_stata_to_polars(&StataType::Byte), 0), Ok(StataType::Int));
    assert_eq!(map_polars_to_stata(&EngineType::Int64, 0), Ok(StataType::Double));
    assert_eq!(map_polars_to_stata(&EngineType::Float32, 0), Ok(StataType::Float));
    assert_eq!(map_polars_to_stata(&EngineType::Datetime(TimeUnit::Nanoseconds), 0), Ok(StataType::DateTime));
    assert_eq!(map_polars_to_stata(&EngineType::String, 2045), Ok(StataType::String));
    assert_eq!(map_polars_to_stata(&EngineType::String, 2046), Ok(StataType::Strl));
    assert_eq!(
        map_polars_to_stata(&EngineType::Nested, 0),
        Err(MappingError::Unsupported(EngineType::Nested))
    );
    assert_eq!(map_stata_to_polars(&StataType::DateTime), EngineType::Datetime(TimeUnit::Milliseconds));
    assert_eq!(StataType::Strl.to_string(), "strl");
}

#[test]
fn epoch_formulas_and_their_inverses() {
    assert_eq!(date_to_host(0), 3653);
    assert_eq!(date_from_host(3653), Some(0));
    assert_eq!(date_from_host(date_to_host(-20000)), Some(-20000));
    assert_eq!(date_from_host(i64::MIN), None);
    assert_eq!(
        datetime_to_host(0, TimeUnit::Milliseconds),
        HostValue::Number { numerator: 315_619_200_000, denominator: 1 }
    );
    assert_eq!(
        datetime_to_host(1_500, TimeUnit::Microseconds),
        HostValue::Number { numerator: 315_619_200_000_000 + 1_500, denominator: 1_000 }
    );
    assert_eq!(datetime_from_host(315_619_200_000), Some(0));
    assert_eq!(
        datetime_to_host(-2_000_000_000, TimeUnit::Nanoseconds),
        HostValue::Number { numerator: 315_619_200_000_000_000 - 2_000_000_000, denominator: 1_000_000 }
    );
    assert_eq!(datetime_from_host(315_619_200_000 - 2_000), Some(-2_000));
    assert_eq!(datetime_from_host(315_619_200_123), Some(123));
    assert_eq!(time_to_host(3_600_000_000), 3600);
    assert_eq!(time_to_host(-1_500_000), -1);
    assert_eq!(time_from_host(3600), Some(3_600_000_000));
    assert_eq!(time_to_host(time_from_host(59).unwrap()), 59);
    assert_eq!(time_from_host(i64::MAX), None);
}

#[test]
fn host_values_by_engine_type() {
    assert_eq!(
        to_host_value(EngineType::Boolean, &EngineValue::Boolean(true)),
        HostValue::Number { numerator: 1, denominator: 1 }
    );
    assert_eq!(
        to_host_value(EngineType::Boolean, &EngineValue::Boolean(false)),
        HostValue::Number { numerator: 0, denominator: 1 }
    );
    assert_eq!(
        to_host_value(EngineType::UInt64, &EngineValue::UInt(u64::MAX)),
        HostValue::Number { numerator: u64::MAX as i128, denominator: 1 }
    );
    let bits = 2.5f64.to_bits();
    assert_eq!(to_host_value(EngineType::Float64, &EngineValue::Double(bits)), HostValue::Double(bits));
    assert_eq!(to_host_value(EngineType::Int32, &EngineValue::Null), HostValue::Missing);
    assert_eq!(to_host_value(EngineType::Int32, &EngineValue::Text("x".to_string())), HostValue::Missing);
    assert_eq!(
        to_host_value(EngineType::String, &EngineValue::Text("abc".to_string())),
        HostValue::Text("abc".to_string())
    );
}

#[test]
fn batches_cover_every_row_once() {
    let plan = plan_batches(5, 250_000, 100_000);
    let lens: Vec<usize> = plan.iter().map(|b| b.len).collect();
    assert_eq!(lens, vec![100_000, 100_000, 50_000]);
    assert_eq!(plan[0].first_row, 5);
    assert_eq!(plan[1].first_row, 100_005);
    assert_eq!(plan[2].first_row, 200_005);
    assert_eq!(plan.iter().map(|b| b.index).collect::<Vec<_>>(), vec![0, 1, 2]);
    assert_eq!(plan_batches(0, 0, 100).len(), 0);
    let whole = plan_batches(3, 17, 0);
    assert_eq!(whole.len(), 1);
    assert_eq!(whole[0].len, 17);
    assert_eq!(plan_batches(0, 10, 3).iter().map(|b| b.len).sum::<usize>(), 10);
    assert_eq!(n_batches(250_000, 100_000), 3);
    assert_eq!(n_batches(0, 100_000), 0);
    assert_eq!(n_batches(7, 0), 1);
}

#[test]
fn adaptive_batch_size_stays_in_bounds() {
    assert_eq!(effective_batch_size(1_000_000, 3, 2_000_000), 1_000_000);
    assert_eq!(effective_batch_size(10_000_000, 100, 50_000_000), 41_943);
    assert_eq!(effective_batch_size(5, 3, 500), 500);
    assert_eq!(effective_batch_size(5, 3, 50_000), 10_000);
    assert_eq!(effective_batch_size(100, 0, 0), 0);
    assert_eq!(effective_batch_size(10_000_000, 1_000, 1_000_000), 10_000);
}

#[test]
fn three_column_import_scenario() {
    let plan = plan_batches(0, 250_000, 100_000);
    assert_eq!(plan.iter().map(|b| b.len).collect::<Vec<_>>(), vec![100_000, 100_000, 50_000]);
    let height = 4;
    let cols = vec![
        WriteColumn {
            host_index: 0,
            dtype: EngineType::Int32,
            values: vec![EngineValue::Int(1), EngineValue::Int(2), EngineValue::Int(3), EngineValue::Int(4)],
        },
        WriteColumn {
            host_index: 1,
            dtype: EngineType::Float64,
            values: (0..4).map(|i| EngineValue::Double((i as f64 * 1.5).to_bits())).collect(),
        },
        WriteColumn {
            host_index: 2,
            dtype: EngineType::Boolean,
            values: vec![
                EngineValue::Boolean(true),
                EngineValue::Boolean(false),
                EngineValue::Boolean(true),
                EngineValue::Null,
            ],
        },
    ];
    assert!(use_single_thread(1, 250_000));
    let writes = plan_batch_writes(&cols, 0, height, ParallelizationStrategy::ByRow, 1);
    assert_eq!(writes.len(), 1);
    let mut host = HashMap::new();
    apply(&mut host, &writes);
    assert_eq!(host[&(3, 1)], HostValue::Number { numerator: 1, denominator: 1 });
    assert_eq!(host[&(3, 2)], HostValue::Number { numerator: 0, denominator: 1 });
    assert_eq!(host[&(3, 4)], HostValue::Missing);
    assert_eq!(host[&(2, 2)], HostValue::Double(1.5f64.to_bits()));
    assert_eq!(host[&(1, 4)], HostValue::Number { numerator: 4, denominator: 1 });
}

#[test]
fn row_and_column_decompositions_agree() {
    let height = 1_234;
    let cols = sample_columns(height);
    let by_row = plan_by_row(&cols, 10, height, 100);
    let by_col = plan_by_column(&cols, 10, height);
    let single = write_row_range(&cols, 10, height, 0, height);
    assert_eq!(by_row.len(), 13);
    assert_eq!(by_col.len(), 3);
    let mut a = HashMap::new();
    let mut b = HashMap::new();
    let mut c = HashMap::new();
    apply(&mut a, &by_row);
    apply(&mut b, &by_col);
    apply(&mut c, &vec![single]);
    assert_eq!(a, b);
    assert_eq!(a, c);
    assert_eq!(a.len(), 3 * height);
    assert_eq!(a[&(3, 11)], HostValue::Number { numerator: -5 + 3653, denominator: 1 });
    let big = sample_columns(20_000);
    let multi_row = plan_batch_writes(&big, 0, 20_000, ParallelizationStrategy::ByRow, 4);
    let multi_col = plan_batch_writes(&big, 0, 20_000, ParallelizationStrategy::ByColumn, 4);
    assert_eq!(multi_row.len(), 16);
    assert_eq!(multi_col.len(), 3);
    let mut d = HashMap::new();
    let mut e = HashMap::new();
    apply(&mut d, &multi_row);
    apply(&mut e, &multi_col);
    assert_eq!(d, e);
}

#[test]
fn strategy_selection() {
    assert_eq!(determine_parallelization_strategy(20, 50_000, 4), ParallelizationStrategy::ByColumn);
    assert_eq!(determine_parallelization_strategy(8, 50_000, 4), ParallelizationStrategy::ByRow);
    assert_eq!(determine_parallelization_strategy(20, 100_000, 4), ParallelizationStrategy::ByRow);
    assert!(use_single_thread(8, 9_999));
    assert!(!use_single_thread(2, 10_000));
    assert_eq!(row_chunk_size(1_000_000, 4), 62_500);
    assert_eq!(row_chunk_size(1_000, 4), 100);
    assert_eq!(admitted_strategy(ParallelizationStrategy::ByColumn, false), ParallelizationStrategy::ByRow);
    assert_eq!(admitted_strategy(ParallelizationStrategy::ByColumn, true), ParallelizationStrategy::ByColumn);
    assert_eq!(strategy_from_arg("columns"), Some(ParallelizationStrategy::ByColumn));
    assert_eq!(strategy_from_arg("rows"), Some(ParallelizationStrategy::ByRow));
    assert_eq!(strategy_from_arg(""), None);
}

/// A host column that widens on a type-checking store of a wider value.
struct SimulatedColumn {
    row_one: HostValue,
    stype: StataType,
    refuse_stores: bool,
}

fn best_type(v: &HostValue) -> StataType {
    match v {
        HostValue::Number { numerator, denominator: 1 } if (-127..=100).contains(numerator) => StataType::Byte,
        HostValue::Number { numerator, denominator: 1 } if (-32_767..=32_740).contains(numerator) => StataType::Int,
        HostValue::Number { .. } => StataType::Long,
        _ => StataType::Double,
    }
}

fn run(probe: &mut TypeProbe, col: &mut SimulatedColumn) -> ProbeAction {
    for _ in 0..10 {
        let answer = match probe.next_action() {
            ProbeAction::Read { column } => {
                assert_eq!(column, 3);
                HostAnswer::Value(col.row_one.clone())
            }
            ProbeAction::Store { value, .. } => {
                if col.refuse_stores {
                    HostAnswer::Status(7)
                } else {
                    let best = best_type(&value);
                    if needs_numeric_promotion(col.stype, best) {
                        col.stype = best;
                    }
                    col.row_one = value;
                    HostAnswer::Status(0)
                }
            }
            ProbeAction::QueryType { .. } => HostAnswer::Type(col.stype),
            ProbeAction::StoreFast { value, .. } => {
                col.row_one = value;
                HostAnswer::Status(0)
            }
            done => return done,
        };
        probe.receive(answer);
    }
    panic!("probe did not finish");
}

#[test]
fn promotion_to_int_restores_row_one() {
    let values = vec![
        HostValue::Number { numerator: 12, denominator: 1 },
        HostValue::Number { numerator: 200, denominator: 1 },
        HostValue::Number { numerator: -40, denominator: 1 },
        HostValue::Missing,
    ];
    let extreme = largest_magnitude(&values);
    assert_eq!(extreme, HostValue::Number { numerator: 200, denominator: 1 });
    let best = best_type(&extreme);
    assert_eq!(best, StataType::Int);
    let mut probe = plan_numeric_widening(3, StataType::Byte, best, extreme).expect("a probe");
    let mut col = SimulatedColumn {
        row_one: HostValue::Number { numerator: 7, denominator: 1 },
        stype: StataType::Byte,
        refuse_stores: false,
    };
    assert_eq!(run(&mut probe, &mut col), ProbeAction::Done(StataType::Int));
    assert_eq!(col.row_one, HostValue::Number { numerator: 7, denominator: 1 });
    assert_eq!(col.stype, StataType::Int);
    assert_eq!(plan_numeric_widening(3, StataType::Long, StataType::Int, HostValue::Missing), None);
}

#[test]
fn refused_probe_aborts() {
    let mut probe = TypeProbe::new(3, HostValue::Number { numerator: 200, denominator: 1 }, StataType::Byte);
    let mut col = SimulatedColumn {
        row_one: HostValue::Number { numerator: 7, denominator: 1 },
        stype: StataType::Byte,
        refuse_stores: true,
    };
    assert_eq!(run(&mut probe, &mut col), ProbeAction::Abort);
}

#[test]
fn magnitudes_and_widths() {
    let values = vec![
        HostValue::Number { numerator: -9_000, denominator: 1_000 },
        HostValue::Number { numerator: 8, denominator: 1 },
    ];
    assert_eq!(largest_magnitude(&values), HostValue::Number { numerator: 9_000, denominator: 1_000 });
    let doubles = vec![HostValue::Double((-3.0f64).to_bits()), HostValue::Double(2.0f64.to_bits())];
    assert_eq!(largest_magnitude(&doubles), HostValue::Double(3.0f64.to_bits()));
    assert_eq!(largest_magnitude(&vec![HostValue::Missing]), HostValue::Missing);
    let texts = vec![
        HostValue::Text("ab".to_string()),
        HostValue::Text("é".to_string()),
        HostValue::Text("abcd".to_string()),
    ];
    assert_eq!(widest_text(&texts), 4);
    assert!(needs_string_promotion(3, 4));
    assert!(!needs_string_promotion(4, 4));
    assert_eq!(string_probe(3), "aaa");
    let probe = plan_string_widening(2, StataType::String, 3, &texts).expect("a probe");
    assert_eq!(probe.probe, HostValue::Text("aaaa".to_string()));
    assert!(plan_string_widening(2, StataType::String, 4, &texts).is_none());
    assert_eq!(
        column_host_values(EngineType::Date, &vec![EngineValue::Date(1)]),
        vec![HostValue::Number { numerator: 3654, denominator: 1 }]
    );
}

#[test]
fn host_type_codes() {
    let codes = StataDataType::load(1, 2, 3, 4, 5, 6, 7).expect("distinct codes");
    assert_eq!(codes.code_of(StataType::Long), 3);
    assert_eq!(codes.code_of(StataType::Date), 5);
    assert_eq!(codes.type_of(6), Some(StataType::String));
    assert_eq!(codes.type_of(9), None);
    assert!(StataDataType::load(1, 2, 3, 4, 5, 6, 1).is_err());
    assert_eq!(plan_variable(0, 5, None), VariableAction::Create);
    assert_eq!(plan_variable(6, 5, Some(StataType::Byte)), VariableAction::Create);
    assert_eq!(plan_variable(2, 5, Some(StataType::String)), VariableAction::CheckString { column: 2 });
    assert_eq!(plan_variable(2, 5, Some(StataType::Strl)), VariableAction::Keep { column: 2 });
    assert_eq!(
        plan_variable(3, 5, Some(StataType::Byte)),
        VariableAction::CheckNumeric { column: 3, current: StataType::Byte }
    );
}

#[test]
fn long_value_channel() {
    assert_eq!(escape_long_value("a\nb\r\"c\""), "a\\nb\\r\\\"c\\\"");
    let lines = side_file_lines(&vec![EngineValue::Text("x\ny".to_string()), EngineValue::Null]);
    assert_eq!(lines, vec!["x\\ny".to_string(), String::new()]);
    let rec = LongValueRecord::new("/tmp/stub", 4, 2, "notes", 100, 50, 10);
    assert_eq!(rec.path, "/tmp/stub_4_2.csv");
    assert_eq!(rec.start_row, 111);
    assert_eq!(rec.end_row, 160);
    let published = rec.published();
    assert_eq!(published[0], ("strl_path_4_2".to_string(), "/tmp/stub_4_2.csv".to_string()));
    assert_eq!(published[1], ("strl_name_4_2".to_string(), "notes".to_string()));
    assert_eq!(published[2], ("strl_start_4_2".to_string(), "111".to_string()));
    assert_eq!(published[3], ("strl_end_4_2".to_string(), "160".to_string()));
}

#[test]
fn display_formats() {
    assert_eq!(match_var_format_stata("%tc"), Some(StataType::DateTime));
    assert_eq!(match_var_format_stata("%tcHH:MM:SS"), Some(StataType::Time));
    assert_eq!(match_var_format_stata("%TD"), Some(StataType::Date));
    assert_eq!(match_var_format_stata("%tq"), Some(StataType::Date));
    assert_eq!(match_var_format_stata("%10.0g"), None);
    assert_eq!(format_kind_of("%tc"), Some(StataType::DateTime));
    assert_eq!(format_kind_of("%TC"), None);
    assert_eq!(declared_type_of("long", "%td"), Some(StataType::Date));
    assert_eq!(declared_type_of("LONG", "%td"), None);
}

fn info(name: &str, dtype: &str, format: &str, width: usize) -> StataColumnInfo {
    StataColumnInfo { name: name.to_string(), dtype: dtype.to_string(), format: format.to_string(), str_length: width }
}

#[test]
fn export_schema_and_read_kinds() {
    let cols = vec![
        info("mychar", "String", "%9s", 1),
        info("mydate", "Long", "%td", 0),
        info("dtime", "double", "%tc", 0),
        info("mytime", "Double", "%tcHH:MM:SS", 0),
        info("n", "byte", "%8.0g", 0),
    ];
    let schema = stata_column_info_to_schema(&cols).expect("known types");
    let types: Vec<EngineType> = schema.iter().map(|f| f.dtype).collect();
    assert_eq!(
        types,
        vec![
            EngineType::String,
            EngineType::Date,
            EngineType::Datetime(TimeUnit::Milliseconds),
            EngineType::Time,
            EngineType::Int8
        ]
    );
    assert_eq!(find_str_length_by_name(&cols, "mychar"), Some(1));
    assert_eq!(find_str_length_by_name(&cols, "other"), None);
    assert_eq!(column_read_kind("mychar", &schema, &cols), Ok(Some(ReadKind::Text(1))));
    assert_eq!(column_read_kind("dtime", &schema, &cols), Ok(Some(ReadKind::DatetimeMs)));
    assert_eq!(column_read_kind("absent", &schema, &cols), Ok(None));
    let bad = vec![info("x", "quad", "%9.0g", 0)];
    assert!(matches!(stata_column_info_to_schema(&bad), Err(TransferError::UnknownHostType { .. })));
}

#[test]
fn export_scanner_windows() {
    let cols = vec![info("a", "double", "%9.0g", 0), info("b", "int", "%9.0g", 0)];
    let names = vec!["a".to_string(), "b".to_string()];
    let mut scan = StataDataScan::new(cols, names, Some(10_000), 5, 25_000, None, None, 0).expect("scanner");
    assert_eq!(scan.get_current_offset(), 5);
    assert_eq!(scan.next_batch(), Some(BatchWindow { first_row: 5, n_rows: 10_000 }));
    assert_eq!(scan.next_batch(), Some(BatchWindow { first_row: 10_005, n_rows: 10_000 }));
    assert_eq!(scan.next_batch(), Some(BatchWindow { first_row: 20_005, n_rows: 5_000 }));
    assert_eq!(scan.next_batch(), None);
    let plan = scan.read_plan(BatchWindow { first_row: 0, n_rows: 50_000 }, 8);
    assert_eq!(plan.n_threads, 1);
    assert_eq!(plan.strategy, ParallelizationStrategy::ByRow);
    assert!(matches!(
        StataDataScan::new(vec![info("q", "quad", "%9.0g", 0)], vec![], None, 0, 10, None, None, 0),
        Err(TransferError::UnknownHostType { .. })
    ));
    let mut all = StataDataScan::new(vec![], vec![], None, 0, 0, None, Some(ParallelizationStrategy::ByColumn), 40)
        .expect("scanner");
    assert_eq!(all.scan(), Some(BatchWindow { first_row: 0, n_rows: 40 }));
    assert_eq!(all.scan(), None);
}

#[test]
fn counters_and_windows() {
    let mut counters = TransferCounters::new();
    assert_eq!(counters.begin_batch(100), (0, 0));
    assert_eq!(counters.begin_batch(50), (100, 1));
    assert_eq!(counters.rows_transferred(), 150);
    assert_eq!(counters.batches_emitted(), 2);
    let w = import_window(11, 5, 100);
    assert_eq!((w.first, w.len), (10, 5));
    let w = import_window(0, 0, 100);
    assert_eq!((w.first, w.len), (0, 100));
    let w = import_window(98, 10, 100);
    assert_eq!((w.first, w.len), (97, 3));
    let w = import_window(200, 10, 100);
    assert_eq!(w.len, 0);
    assert_eq!(import_thread_count(999, 8), 1);
    assert_eq!(import_thread_count(1_000, 8), 8);
}

#[test]
fn counts_words_and_sorting() {
    assert_eq!(parse_count("42"), Some(42));
    assert_eq!(parse_count("+7"), Some(7));
    assert_eq!(parse_count("-7"), None);
    assert_eq!(parse_count(""), None);
    assert_eq!(parse_count("+"), None);
    assert_eq!(parse_count("99999999999999999999999"), None);
    assert_eq!(get_thread_count(Some("3"), Some(16)), 3);
    assert_eq!(get_thread_count(Some("many"), Some(16)), 16);
    assert_eq!(get_thread_count(None, None), 1);
    let words = split_words("  a\tbb \u{3000} c ");
    let words: Vec<String> = words.iter().map(|w| w.iter().collect()).collect();
    assert_eq!(words, vec!["a", "bb", "c"]);
    let keys = parse_sort("-price name -");
    assert_eq!(keys.len(), 3);
    assert_eq!((keys[0].column.as_str(), keys[0].descending), ("price", true));
    assert_eq!((keys[1].column.as_str(), keys[1].descending), ("name", false));
    assert_eq!((keys[2].column.as_str(), keys[2].descending), ("-", false));
    let renames = vec![
        ("a".to_string(), "x".to_string()),
        ("a".to_string(), "y".to_string()),
        ("c".to_string(), "z".to_string()),
    ];
    assert_eq!(resolve_columns(" a b  c", &renames), vec!["y", "b", "z"]);
}

#[test]
fn column_preparation() {
    let batch = vec![
        BatchColumn { name: "s".to_string(), dtype: EngineType::String, values: vec![EngineValue::Text("v".to_string())] },
        BatchColumn { name: "t".to_string(), dtype: EngineType::Int64, values: vec![EngineValue::Int(3)] },
        BatchColumn { name: "long".to_string(), dtype: EngineType::String, values: vec![EngineValue::Null] },
    ];
    let ci = |index: usize, name: &str, dtype: &str, stata_type: &str| ColumnInfo {
        index,
        name: name.to_string(),
        dtype: dtype.to_string(),
        stata_type: stata_type.to_string(),
    };
    assert!(matches!(prepare_column(&ci(0, "s", "String", "string"), &batch), Ok(PreparedColumn::Regular(_))));
    assert!(matches!(prepare_column(&ci(1, "t", "Int64", "double"), &batch), Ok(PreparedColumn::Regular(_))));
    assert!(matches!(prepare_column(&ci(1, "t", "Decimal", "double"), &batch), Err(TransferError::Unsupported { .. })));
    assert!(matches!(prepare_column(&ci(1, "t", "Int64", "string"), &batch), Err(TransferError::Unsupported { .. })));
    assert!(matches!(prepare_column(&ci(2, "long", "String", "strl"), &batch), Ok(PreparedColumn::Long(_))));
    assert!(matches!(prepare_column(&ci(1, "t", "Int64", "datetime"), &batch), Err(TransferError::NoTimeUnit { .. })));
    assert!(matches!(prepare_column(&ci(1, "t", "Int64", "binary"), &batch), Err(TransferError::BinaryColumn { .. })));
    assert!(matches!(prepare_column(&ci(1, "gone", "Int64", "double"), &batch), Err(TransferError::MissingColumn { .. })));
}

#[test]
fn binary_warnings_name_each_column_once() {
    let mut w = BinaryWarnings::new(4);
    w.record(2);
    w.record(0);
    w.record(2);
    assert_eq!(w.columns(), vec![0, 2]);
}

#[test]
fn read_params_keep_their_arguments() {
    let p = ReadParams::new("f.parquet".to_string(), "a b".to_string(), 10, 2, Some("a > 1".to_string()), String::new());
    assert_eq!(p.path, "f.parquet");
    assert_eq!(p.n_rows, 10);
    assert_eq!(p.offset, 2);
    assert_eq!(p.sql_if.as_deref(), Some("a > 1"));
}

#[test]
fn integer_shrinking() {
    assert_eq!(find_optimal_integer_type(0, 1, false), EngineType::Boolean);
    assert_eq!(find_optimal_integer_type(0, 1, true), EngineType::Int8);
    assert_eq!(find_optimal_integer_type(-127, 100, false), EngineType::Int8);
    assert_eq!(find_optimal_integer_type(-128, 100, false), EngineType::Int16);
    assert_eq!(find_optimal_integer_type(0, 32_741, false), EngineType::Int32);
    assert_eq!(find_optimal_integer_type(0, 2_147_483_621, false), EngineType::Int64);
    assert!(is_better_type(&EngineType::Int8, &EngineType::Int64));
    assert!(!is_better_type(&EngineType::Int64, &EngineType::Float64));
    assert_eq!(parse_data_type("int16"), Some(EngineType::Int16));
    assert_eq!(parse_data_type("decimal"), None);
    assert_eq!(shrink_target(EngineType::Int64, 3, 90, false), Some(EngineType::Int8));
    assert_eq!(shrink_target(EngineType::Int8, 3, 90, false), None);
}

#[test]
fn host_variable_names() {
    let names: Vec<String> = ["price", "unit price", "1st", "if", "a-b", "a_b", "x".repeat(40).as_str(), "ok_name"]
        .iter()
        .map(|s| s.to_string())
        .collect();
    let renames = generate_rename_map(&names);
    let get = |n: &str| renames.iter().find(|(from, _)| from == n).map(|(_, to)| to.clone());
    assert_eq!(get("price"), None);
    assert_eq!(get("unit price"), Some("unit_price".to_string()));
    assert_eq!(get("1st"), Some("_1st".to_string()));
    assert_eq!(get("if"), Some("_if".to_string()));
    assert_eq!(get("a-b"), Some("a_b_001".to_string()));
    assert_eq!(get("a_b"), None);
    assert_eq!(get(&"x".repeat(40)), Some("x".repeat(32)));
    assert_eq!(get("ok_name"), None);
    let clash: Vec<String> = ["a b", "a-b", "a.b"].iter().map(|s| s.to_string()).collect();
    let renames = generate_rename_map(&clash);
    assert_eq!(
        renames,
        vec![
            ("a b".to_string(), "a_b_001".to_string()),
            ("a-b".to_string(), "a_b_002".to_string()),
            ("a.b".to_string(), "a_b_003".to_string()),
        ]
    );
    assert_eq!(process_name("é-x").iter().collect::<String>(), "é_x");
    let tricky: Vec<String> = ["b!", "b?", "b_-001", "b__002"].iter().map(|s| s.to_string()).collect();
    let renames = generate_rename_map(&tricky);
    assert_eq!(
        renames,
        vec![
            ("b!".to_string(), "b__001".to_string()),
            ("b?".to_string(), "b__003".to_string()),
            ("b_-001".to_string(), "b__001_001".to_string()),
        ]
    );
}

#[test]
fn output_options() {
    assert_eq!(parquet_options("lz4", None), CompressionChoice::Lz4Raw);
    assert_eq!(parquet_options("gzip", Some(6)), CompressionChoice::Gzip(Some(6)));
    assert_eq!(parquet_options("brotli", None), CompressionChoice::Brotli(None));
    assert_eq!(parquet_options("anything", Some(3)), CompressionChoice::Zstd(Some(3)));
    assert_eq!(compression_level_from(-1), None);
    assert_eq!(compression_level_from(9), Some(9));
    assert!(is_hive_directory_name("year=2020"));
    assert!(!is_hive_directory_name("2020"));
    assert_eq!(overwrite_action(false, true, true, false, false), OverwriteAction::Keep);
    assert_eq!(overwrite_action(true, true, true, false, false), OverwriteAction::RemoveFile);
    assert_eq!(overwrite_action(true, true, false, false, false), OverwriteAction::Keep);
    assert_eq!(overwrite_action(true, false, false, true, true), OverwriteAction::RemoveDirectory);
    assert_eq!(overwrite_action(true, false, false, true, false), OverwriteAction::Refuse);
}
