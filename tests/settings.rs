use lightfusion::{
    find_item_type, model_file, select_kernel, ConfigError, CreateError, DataKind, FunctionBody,
    ItemType, Kernel, LightfusionConfig, LightfusionFunctionFactory,
};

#[test]
fn default_batch_size_is_one() {
    assert_eq!(LightfusionConfig::default().batch_size(), 1);
}

#[test]
fn set_batch_size_ignores_key_case() {
    let mut c = LightfusionConfig::default();
    assert_eq!(c.set("BATCH_Size", "8"), Ok(()));
    assert_eq!(c.batch_size(), 8);
    assert_eq!(c.set("batch_size", "+12"), Ok(()));
    assert_eq!(c.batch_size(), 12);
}

#[test]
fn bad_batch_sizes_are_refused() {
    let mut c = LightfusionConfig::default();
    for v in ["0", "abc", "", "-3", " 4", "99999999999999999999999"] {
        assert_eq!(c.set("batch_size", v), Err(ConfigError::InvalidBatchSize));
        assert_eq!(c.batch_size(), 1);
    }
}

#[test]
fn unknown_key_is_refused() {
    let mut c = LightfusionConfig::default();
    assert_eq!(c.set("Device", "gpu"), Err(ConfigError::UnknownKey("device".to_string())));
    assert_eq!(c.batch_size(), 1);
}

#[test]
fn entries_list_the_batch_size() {
    let mut c = LightfusionConfig::default();
    c.set("batch_size", "250").unwrap();
    let e = c.entries();
    assert_eq!(e.len(), 1);
    assert_eq!(e[0].key, "lightfusion.batch_size");
    assert_eq!(e[0].value.as_deref(), Some("250"));
    assert_eq!(
        e[0].description,
        "Batch size to be used. Valid value positive non-zero integers. Default: 1"
    );
}

#[test]
fn supported_type_pairs() {
    assert_eq!(select_kernel(ItemType::Float32, ItemType::Float64), Ok(Kernel::F32ToF64));
    assert_eq!(select_kernel(ItemType::Float64, ItemType::Float64), Ok(Kernel::F64ToF64));
}

#[test]
fn half_float_input_is_a_configuration_error() {
    assert_eq!(
        select_kernel(ItemType::Float16, ItemType::Float64),
        Err(CreateError::UnsupportedInput(ItemType::Float16))
    );
    assert_eq!(
        select_kernel(ItemType::Other, ItemType::Float32),
        Err(CreateError::UnsupportedInput(ItemType::Other))
    );
}

#[test]
fn non_double_return_is_a_configuration_error() {
    assert_eq!(
        select_kernel(ItemType::Float32, ItemType::Float32),
        Err(CreateError::UnsupportedReturn(ItemType::Float32))
    );
    assert_eq!(
        select_kernel(ItemType::Float64, ItemType::Float16),
        Err(CreateError::UnsupportedReturn(ItemType::Float16))
    );
}

#[test]
fn list_types_stand_for_their_items() {
    assert_eq!(find_item_type(DataKind::List(ItemType::Float32)), ItemType::Float32);
    assert_eq!(find_item_type(DataKind::Item(ItemType::Float64)), ItemType::Float64);
}

#[test]
fn model_path_defaults_to_function_name() {
    assert_eq!(model_file("f0", None).unwrap(), "model/f0.lgbm");
    assert_eq!(
        model_file("f0", Some(FunctionBody::Literal("multiclass.lgbm".to_string()))).unwrap(),
        "multiclass.lgbm"
    );
    assert_eq!(
        model_file("f0", Some(FunctionBody::Expression("1 + 2".to_string()))),
        Err(CreateError::UnsupportedExpression("1 + 2".to_string()))
    );
}

#[test]
fn plan_for_double_list_function() {
    let mut c = LightfusionConfig::default();
    c.set("batch_size", "4").unwrap();
    let p = LightfusionFunctionFactory::default()
        .plan(
            "f0".to_string(),
            Some(vec![DataKind::List(ItemType::Float64)]),
            Some(DataKind::List(ItemType::Float64)),
            Some(FunctionBody::Literal("multiclass.lgbm".to_string())),
            &c,
        )
        .unwrap();
    assert_eq!(p.name, "f0");
    assert_eq!(p.model_file, "multiclass.lgbm");
    assert_eq!(p.batch_size, 4);
    assert_eq!(p.kernel, Kernel::F64ToF64);
}

#[test]
fn plan_defaults_return_to_input_type() {
    let c = LightfusionConfig::default();
    let f = LightfusionFunctionFactory::default();
    let p = f
        .plan("g".to_string(), Some(vec![DataKind::List(ItemType::Float32)]), None, None, &c)
        .err();
    assert_eq!(p, Some(CreateError::UnsupportedReturn(ItemType::Float32)));
    let p = f.plan("g".to_string(), None, None, None, &c).unwrap();
    assert_eq!(p.kernel, Kernel::F64ToF64);
    assert_eq!(p.model_file, "model/g.lgbm");
    let e = f
        .plan(
            "g".to_string(),
            Some(vec![DataKind::List(ItemType::Float16)]),
            None,
            Some(FunctionBody::Expression("x".to_string())),
            &c,
        )
        .err();
    assert_eq!(e, Some(CreateError::UnsupportedExpression("x".to_string())));
}

#[test]
fn set_lowered_takes_exact_key() {
    let mut c = LightfusionConfig::default();
    assert_eq!(c.set_lowered("batch_size".to_string(), "3"), Ok(()));
    assert_eq!(c.batch_size(), 3);
    assert_eq!(
        c.set_lowered("BATCH_SIZE".to_string(), "4"),
        Err(ConfigError::UnknownKey("BATCH_SIZE".to_string()))
    );
    assert_eq!(c.batch_size(), 3);
}
