use next_build::css_client_reference::{
    get_next_css_client_reference_transforms_rule, CssClientReferenceError,
    CssClientReferenceModuleTypeVc, CssReferenceSubType, ModuleRuleCondition, ModuleRuleEffect,
    ModuleType, ReferenceType,
};

#[test]
fn module_type_keeps_its_transition() {
    let m = CssClientReferenceModuleTypeVc::new(7u32);
    assert_eq!(m.client_transition(), 7);
    assert_eq!(
        m.process_reference_type(),
        ReferenceType::Css(CssReferenceSubType::Internal)
    );
}

#[test]
fn create_module_wraps_a_css_chunk_item() {
    let m = CssClientReferenceModuleTypeVc::new(1u32);
    let asset = m.create_module(Some(42u64)).unwrap();
    assert_eq!(asset.client_module, 42);
}

#[test]
fn create_module_fails_where_the_asset_is_not_css_chunk_placeable() {
    let m = CssClientReferenceModuleTypeVc::new(1u32);
    let err = m.create_module::<u64>(None).err().unwrap();
    assert_eq!(err, CssClientReferenceError::NotCssChunkPlaceable);
    assert_eq!(err.message(), "client asset is not CSS chunk placeable");
}

#[test]
fn css_rule_matches_internal_css_files_and_installs_the_module_type() {
    let rule = get_next_css_client_reference_transforms_rule(5u32);
    match &rule.condition {
        ModuleRuleCondition::All(all) => {
            assert_eq!(all.len(), 2);
            match &all[0] {
                ModuleRuleCondition::ReferenceType(r) => {
                    assert_eq!(*r, ReferenceType::Css(CssReferenceSubType::Internal))
                }
                _ => panic!("expected a reference type condition"),
            }
            match &all[1] {
                ModuleRuleCondition::Any(any) => {
                    assert_eq!(any.len(), 1);
                    match &any[0] {
                        ModuleRuleCondition::ResourcePathEndsWith(suffix) => {
                            assert_eq!(suffix, ".css")
                        }
                        _ => panic!("expected a path suffix condition"),
                    }
                }
                _ => panic!("expected an any condition"),
            }
        }
        _ => panic!("expected an all condition"),
    }
    assert_eq!(rule.effects.len(), 1);
    match &rule.effects[0] {
        ModuleRuleEffect::ModuleType(ModuleType::Custom(m)) => assert_eq!(m.client_transition(), 5),
    }
}
