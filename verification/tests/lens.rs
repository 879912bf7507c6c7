use ss_analysis::iref::IRef;
use ss_analysis::lens::{Lens, ReferenceCounted};
use std::rc::Rc;
use std::sync::Arc;

fn first_zero(data: &Vec<u8>) -> Result<usize, String> {
    match data.iter().position(|b| *b == 0) {
        Some(at) => Ok(at),
        None => Err(format!("no zero among {} bytes", data.len())),
    }
}

#[test]
fn lens_owns_its_data_and_holds_the_image() {
    let lens = Lens::new(vec![3u8, 1, 4, 1, 5], |data: &Vec<u8>| data.len());
    assert_eq!(*lens.image(), 5);
    assert_eq!(**lens.backing(), vec![3u8, 1, 4, 1, 5]);
}

#[test]
fn failed_derivation_gives_the_error_and_no_lens() {
    let ok = Lens::try_new(vec![7u8, 0, 9], first_zero);
    let lens = ok.ok().unwrap();
    assert_eq!(*lens.image(), 1);
    assert_eq!(**lens.backing(), vec![7u8, 0, 9]);
    let failed = Lens::try_new(vec![7u8, 8, 9], first_zero);
    assert_eq!(failed.err(), Some(String::from("no zero among 3 bytes")));
}

#[test]
fn image_can_be_changed_in_place() {
    let mut lens = Lens::new(String::from("abc"), |s: &String| s.len());
    *lens.image_mut() += 10;
    assert_eq!(*lens.image(), 13);
    assert_eq!(**lens.backing(), String::from("abc"));
}

#[test]
fn lens_on_shared_data_keeps_the_pointer() {
    let data = Rc::new(vec![10u32, 20, 30]);
    let lens = Lens::new_rc(data.clone(), |v: &Vec<u32>| v[1]);
    assert_eq!(*lens.image(), 20);
    assert!(Rc::ptr_eq(lens.backing(), &data));
    assert_eq!(Rc::strong_count(&data), 2);
}

#[test]
fn failed_derivation_on_shared_data() {
    let data = Arc::new(vec![1u8, 2, 0]);
    let lens = Lens::try_new_rc(data.clone(), first_zero).ok().unwrap();
    assert_eq!(*lens.image(), 2);
    assert!(Arc::ptr_eq(lens.backing(), &data));
    let none = Arc::new(vec![1u8, 2]);
    let failed = Lens::try_new_rc(none.clone(), first_zero);
    assert_eq!(failed.err(), Some(String::from("no zero among 2 bytes")));
    assert_eq!(Arc::strong_count(&none), 1);
}

#[test]
fn reimage_shares_the_data() {
    let data = Rc::new(vec![10u32, 20, 30]);
    let first = Lens::new_rc(data.clone(), |v: &Vec<u32>| v[0]);
    let last = first.reimage(|v: &Vec<u32>| v.len() - 1);
    assert_eq!(*first.image(), 10);
    assert_eq!(*last.image(), 2);
    assert!(Rc::ptr_eq(first.backing(), last.backing()));
    assert_eq!(Rc::strong_count(&data), 3);
    drop(first);
    assert_eq!(Rc::strong_count(&data), 2);
    assert_eq!(last.backing()[*last.image()], 30);
}

#[test]
fn clone_map_derives_from_the_image() {
    let data = Arc::new(String::from("shared"));
    let whole = Lens::new_rc(data.clone(), |s: &String| (0usize, s.len()));
    let tail = whole.clone_map(|range: &(usize, usize)| (range.0 + 2, range.1));
    assert_eq!(*tail.image(), (2, 6));
    assert_eq!(*whole.image(), (0, 6));
    assert!(Arc::ptr_eq(whole.backing(), tail.backing()));
    assert_eq!(Arc::strong_count(&data), 3);
    assert_eq!(&tail.backing()[tail.image().0..tail.image().1], "ared");
}

#[test]
fn lens_on_a_lens() {
    let tracks = vec![vec![1u8, 2], vec![3u8, 4, 5], vec![6u8]];
    let file = Arc::new(Lens::new(tracks, |t: &Vec<Vec<u8>>| t.len()));
    let second = Lens::new_rc(file.clone(), |_: &Lens<Box<Vec<Vec<u8>>>, usize>| 1usize);
    let cursor = second.clone_map(|track: &usize| (*track, 0usize));
    assert_eq!(*file.image(), 3);
    assert_eq!(second.backing().backing()[*second.image()], vec![3u8, 4, 5]);
    assert_eq!(*cursor.image(), (1, 0));
    assert_eq!(Arc::strong_count(&file), 3);
}

#[test]
fn pointers_share_what_they_point_to() {
    let rc = <Rc<u32> as ReferenceCounted>::new(5);
    let other = rc.share();
    assert!(Rc::ptr_eq(&rc, &other));
    assert_eq!(*rc.get(), 5);
    assert_eq!(*other.get(), 5);
    let arc = <Arc<String> as ReferenceCounted>::new(String::from("x"));
    let shared = arc.share();
    assert!(Arc::ptr_eq(&arc, &shared));
    assert_eq!(shared.get(), "x");
    assert_eq!(Arc::strong_count(&arc), 2);
}

#[test]
fn iref_holds_what_the_builder_made() {
    let iref = IRef::new(vec![5u8, 6, 7], |v: &Vec<u8>| v.iter().map(|b| *b as u32).sum::<u32>());
    assert_eq!(*iref.get(), 18);
}

#[test]
fn iref_fails_with_the_builder() {
    let iref = IRef::try_new(vec![5u8, 0, 7], first_zero).ok().unwrap();
    assert_eq!(*iref.get(), 1);
    let failed = IRef::try_new(vec![5u8], first_zero);
    assert_eq!(failed.err(), Some(String::from("no zero among 1 bytes")));
}
