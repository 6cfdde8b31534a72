use zmachine::zchar::zpack;

#[test]
fn zchar_test_zpack() {
    let vec1: Vec<u8> = vec![0xa5, 0x5a, 0xa5, 0x5a, 0xa5, 0x5a];
    let vec2: Vec<u8> = vec![0x5a, 0xa5, 0x5a, 0xa5, 0x5a];
    let vec3: Vec<u8> = vec![0xa5, 0x5a, 0xa5, 0x5a];
    let vec4: Vec<u8> = vec![0x5a, 0xa5, 0x5a];
    let vec5: Vec<u8> = vec![0xa5, 0x5a];
    let vec6: Vec<u8> = vec![0x5a];
    let vec7: Vec<u8> = vec![];

    // zpacked strings are padded out with 5s
    let exp1: Vec<u8> = vec![0x17, 0x45, 0xe8, 0xba];
    let exp2: Vec<u8> = vec![0x68, 0xba, 0x97, 0x45];
    let exp3: Vec<u8> = vec![0x17, 0x45, 0xe8, 0xa5];
    let exp4: Vec<u8> = vec![0xe8, 0xba];
    let exp5: Vec<u8> = vec![0x97, 0x45];
    let exp6: Vec<u8> = vec![0xe8, 0xa5];
    let exp7: Vec<u8> = vec![];

    let packed1 = zpack(vec1);
    let packed2 = zpack(vec2);
    let packed3 = zpack(vec3);
    let packed4 = zpack(vec4);
    let packed5 = zpack(vec5);
    let packed6 = zpack(vec6);
    let packed7 = zpack(vec7);

    assert_eq!(packed1, exp1);
    assert_eq!(packed2, exp2);
    assert_eq!(packed3, exp3);
    assert_eq!(packed4, exp4);
    assert_eq!(packed5, exp5);
    assert_eq!(packed6, exp6);
    assert_eq!(packed7, exp7);
}
