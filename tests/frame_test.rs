use compiler::frame::{FunctionContext, LocalVar};
use compiler::types::Type;

#[test]
fn slots_grow_downward_without_reuse() {
    let mut ctx = FunctionContext::new();
    assert!(ctx.get_local("x").is_none());
    ctx.add_local("x".to_string(), Type::Integer.to_size_asm());
    ctx.add_local("s".to_string(), Type::String.to_size_asm());
    ctx.add_local("b".to_string(), Type::Bool.to_size_asm());
    assert_eq!(ctx.get_local("x"), Some(&LocalVar { offset: -4, size: 4 }));
    assert_eq!(ctx.get_local("s"), Some(&LocalVar { offset: -12, size: 8 }));
    assert_eq!(ctx.get_local("b"), Some(&LocalVar { offset: -13, size: 1 }));
    assert!(ctx.get_local("y").is_none());
}

#[test]
fn sizes_per_type() {
    assert_eq!(Type::Integer.to_size_asm(), 4);
    assert_eq!(Type::String.to_size_asm(), 8);
    assert_eq!(Type::Bool.to_size_asm(), 1);
    assert_eq!(Type::Char.to_size_asm(), 1);
}
