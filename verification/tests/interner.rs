use std::sync::Arc;

use beans_core::interner::Interner;

#[test]
fn interns_to_shared_buffers() {
    let mut interner = Interner::new();
    let a = interner.intern("com.example.Service");
    let b = interner.intern("com.example.Service");
    let c = interner.intern("com.example.Other");

    assert!(Arc::ptr_eq(&a, &b), "same text shares one buffer");
    assert!(!Arc::ptr_eq(&a, &c));
    assert_eq!(interner.len(), 2);
}

#[test]
fn fresh_interner_is_empty() {
    let mut interner = Interner::default();
    assert!(interner.is_empty());
    let s = interner.intern("");
    assert_eq!(&*s, "");
    assert_eq!(interner.len(), 1);
}
