use binrw::io::{Cursor, Read, Seek};
use binrw::{BinRead, BinResult, Endian, ReadMany};
use std::cell::Cell;
use std::rc::Rc;

/// An element that takes one byte and counts how often one is dropped.
struct Counted {
    drops: Rc<Cell<usize>>,
}

impl Drop for Counted {
    fn drop(&mut self) {
        self.drops.set(self.drops.get() + 1);
    }
}

impl vstd::prelude::DeepView for Counted {
    type V = ();

    fn deep_view(&self) -> () {}
}

impl BinRead for Counted {
    type Args = Rc<Cell<usize>>;

    fn spec_read(
        _bytes: vstd::seq::Seq<u8>,
        _endian: Endian,
        _args: Rc<Cell<usize>>,
    ) -> Option<((), vstd::prelude::nat)> {
        panic!("only a model")
    }

    fn restores_on_failure() -> bool {
        false
    }

    fn fails_only_at_end() -> bool {
        false
    }

    fn read_options<R: Read + Seek>(reader: &mut R, endian: Endian, args: &Rc<Cell<usize>>) -> BinResult<Counted> {
        u8::read_options(reader, endian, &())?;
        Ok(Counted { drops: args.clone() })
    }
}

impl ReadMany for Counted {}

fn drops_after_failure<const N: usize>(k: usize) -> usize {
    let drops = Rc::new(Cell::new(0));
    let mut c = Cursor::new(vec![7u8; k]);
    let r = <[Counted; N]>::read_options(&mut c, Endian::Little, &drops);
    assert!(r.is_err());
    drops.get()
}

#[test]
fn failed_array_releases_built_prefix() {
    for k in 0..1 {
        assert_eq!(drops_after_failure::<1>(k), k);
    }
    for k in 0..5 {
        assert_eq!(drops_after_failure::<5>(k), k);
    }
}

#[test]
fn whole_array_released_once() {
    let drops = Rc::new(Cell::new(0));
    let mut c = Cursor::new(vec![1u8; 5]);
    let arr = <[Counted; 5]>::read_options(&mut c, Endian::Little, &drops).unwrap();
    assert_eq!(drops.get(), 0);
    drop(arr);
    assert_eq!(drops.get(), 5);
    let mut c = Cursor::new(Vec::new());
    let empty = <[Counted; 0]>::read_options(&mut c, Endian::Little, &drops).unwrap();
    drop(empty);
    assert_eq!(drops.get(), 5);
}
