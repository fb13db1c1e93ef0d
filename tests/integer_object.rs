use wavespy::integer_object::IntegerObject;

#[test]
fn integer_object_keeps_number_and_children() {
    let o = IntegerObject::new(7, &[3, 1, 4]);
    assert_eq!(o.number(), 7);
    assert_eq!(o.children(), vec![3, 1, 4]);
    o.add_nums(&[9]);
    assert_eq!(o.children(), vec![3, 1, 4]);
    assert!(IntegerObject::new(0, &[]).children().is_empty());
}
