use epoch_cell::{EpochCell, RefMut, StaleBorrowError};

fn write<T>(g: &RefMut<T>, c: &mut EpochCell<T>, v: T) {
    *g.deref_mut(c).expect("stale mut borrow") = v;
}

#[test]
fn test_basic() {
    let mut c = EpochCell::new(0u32);
    {
        let a = c.borrow_mut();
        {
            let b = c.borrow_mut();
            write(&b, &mut c, 2);
            b.release(&mut c);
        }
        write(&a, &mut c, 1);
        a.release(&mut c);
    }
    assert_eq!(c.into_inner(), 1);
}

#[test]
fn test_get_mut() {
    let mut c = EpochCell::new(0u32);
    {
        let a = c.get_mut();
        *a = 1;
    }
    assert_eq!(c.into_inner(), 1);
}

#[test]
#[should_panic]
fn test_stale() {
    let mut c = EpochCell::new(0u32);
    {
        let a = c.borrow_mut();
        let _b = c.borrow_mut();
        let _ = *a.deref(&c).expect("stale borrow");
    }
}

#[test]
fn test_latest() {
    let mut c = EpochCell::new(0u32);
    {
        {
            let a = c.borrow_mut();
            a.release(&mut c);
        }
        let b = c.borrow_mut();
        let _ = *b.deref(&c).expect("stale borrow");
        b.release(&mut c);
    }
}

#[test]
fn test_forget_outer() {
    let mut c = EpochCell::new(0u32);
    {
        let a = c.borrow_mut();
        std::mem::forget(a);
        let b = c.borrow_mut();
        write(&b, &mut c, 1);
        b.release(&mut c);
    }
    assert_eq!(c.into_inner(), 1);
}

#[test]
fn test_vec() {
    let mut c = EpochCell::new(vec![0u32]);
    {
        let a = c.borrow_mut();
        a.deref_mut(&mut c).unwrap().push(1);
        {
            let b = c.borrow_mut();
            b.deref_mut(&mut c).unwrap().pop();
            b.deref_mut(&mut c).unwrap().push(2);
            b.release(&mut c);
        }
        a.deref_mut(&mut c).unwrap().push(3);
        a.release(&mut c);
    }
    assert_eq!(c.into_inner(), vec![0u32, 2, 3]);
}

fn recurse(cell: &mut EpochCell<u32>, depth: u32) {
    if depth == 0 {
        return;
    }
    let g = cell.borrow_mut();
    *g.deref_mut(cell).unwrap() += 1;
    recurse(cell, depth - 1);
    *g.deref_mut(cell).unwrap() += 1;
    g.release(cell);
}

#[test]
fn deep_recursion() {
    let mut c = EpochCell::new(0);
    recurse(&mut c, 1_000);
    assert_eq!(c.into_inner(), 2_000);
}

#[test]
fn vector_shuffle_drop() {
    let mut c = EpochCell::new(0u8);
    {
        let mut v = Vec::new();
        for _ in 0..4 {
            v.push(c.borrow_mut());
        }
        while let Some(g) = if v.len() > 0 {
            Some(v.swap_remove(v.len() - 1))
        } else {
            None
        } {
            let x = *g.deref(&c).unwrap();
            *g.deref_mut(&mut c).unwrap() = x + 1;
            g.release(&mut c);
        }
    }

    assert_eq!(c.into_inner(), 4);
}

#[test]
fn raw_pointer_escape_panics() {
    let mut c = EpochCell::new(0u8);
    let g = c.borrow_mut();
    let inner = c.borrow_mut();
    assert_eq!(g.deref_mut(&mut c), Err(StaleBorrowError));
    let _ = *inner.deref(&c).unwrap();
}

#[test]
fn zst_ok() {
    let mut c = EpochCell::new(());
    {
        let g = c.borrow_mut();
        assert_eq!(g.deref(&c), Ok(&()));
        g.release(&mut c);
    }
    c.borrow();
    assert_eq!(c.epoch(), 0);
}
