use lzr::expr::{ExprKind, ExprTag, MAX_VALUE};

#[test]
fn tag_packs_kind_and_value() {
    let kinds = [ExprKind::Id, ExprKind::Number, ExprKind::Func, ExprKind::Unary, ExprKind::Binary];
    for kind in kinds {
        for value in [0u32, 1, 0x1234, MAX_VALUE] {
            let tag = ExprTag::new(kind, value);
            assert_eq!(tag.kind(), kind);
            assert_eq!(tag.value(), value);
        }
    }
}
