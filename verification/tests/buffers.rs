use hw_raytracer::rasterizer::{Buffers, ColBufID, IndBufID, PosBufID, Primitive};

#[test]
fn buffers_combine_like_sets() {
    assert_eq!(Buffers::Color | Buffers::Depth, Buffers::Both);
    assert_eq!(Buffers::Depth | Buffers::Color, Buffers::Both);
    assert_eq!(Buffers::Color | Buffers::Color, Buffers::Color);
    assert_eq!(Buffers::Depth | Buffers::Depth, Buffers::Depth);
    assert_eq!(Buffers::Both | Buffers::Color, Buffers::Both);
    assert_eq!(Buffers::Both & Buffers::Color, Buffers::Color);
    assert_eq!(Buffers::Depth & Buffers::Both, Buffers::Depth);
    assert_eq!(Buffers::Both & Buffers::Both, Buffers::Both);
    assert_eq!(Buffers::Color & Buffers::Color, Buffers::Color);
}

#[test]
fn buffers_combine_like_their_bits() {
    let all = [Buffers::Color, Buffers::Depth, Buffers::Both];
    for a in all.iter() {
        for b in all.iter() {
            assert_eq!((*a | *b).bits(), a.bits() | b.bits());
            if a.bits() & b.bits() != 0 {
                assert_eq!((*a & *b).bits(), a.bits() & b.bits());
            }
        }
    }
}

#[test]
fn buffers_have_the_bits_one_two_and_three() {
    assert_eq!(Buffers::Color.bits(), 1);
    assert_eq!(Buffers::Depth.bits(), 2);
    assert_eq!(Buffers::Both.bits(), 3);
    assert_eq!(Buffers::from_i32(1), Some(Buffers::Color));
    assert_eq!(Buffers::from_i32(2), Some(Buffers::Depth));
    assert_eq!(Buffers::from_i32(3), Some(Buffers::Both));
    assert_eq!(Buffers::from_i32(0), None);
    assert_eq!(Buffers::from_i32(4), None);
    assert_eq!(Buffers::from_i32(-1), None);
}

#[test]
fn ids_carry_their_number() {
    assert_eq!(PosBufID { pos_id: 3 }.pos_id, 3);
    assert_eq!(IndBufID { ind_id: 4 }.ind_id, 4);
    assert_eq!(ColBufID { col_id: 5 }.col_id, 5);
    assert_eq!(Primitive::Triangle, Primitive::Triangle);
}
