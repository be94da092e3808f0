use ltv::records::{
    BasicLTV, ExampleNested, ExampleSet, ExampleStruct, InnerStructData, ItemUnnamedMany,
    ItemWihtUnnamedField, ItemWithList, LTVObjectCount, LTVObjectExample, LTVObjectUnnamed,
    MyObjects,
};
use ltv::{get_ltv, ByteOrder, LTVItem, LTVObjectConvertable, LTVReader};

#[test]
fn lib_writer_to_reader() {
    let original = BasicLTV { field1: 0x35 };

    let buffer = original.to_ltv(ByteOrder::LE);
    let out = BasicLTV::from_ltv(0x01, &buffer, ByteOrder::LE).unwrap();
    assert_eq!(original, out);
    assert_eq!(&buffer, &[2, 0x01, 0x35]);
}

#[test]
fn to_and_from_ltv() {
    let original_ltv = ExampleStruct {
        field1: 0x69,
        field2: [12, 34, 56],
    };
    let ltv_bytes = original_ltv.to_ltv(ByteOrder::BE);

    let new_ltv = ExampleStruct::from_ltv(10, &ltv_bytes, ByteOrder::BE).unwrap();
    assert_eq!(original_ltv, new_ltv);
}

#[test]
fn to_and_from_ltv_obj() {
    let original_ltv = LTVObjectExample {
        field1: 55,
        field2: None,
    };
    let ltv_bytes = original_ltv.to_ltv_object();

    println!("{:?}", &ltv_bytes);
    let new_ltv = LTVObjectExample::from_ltv_object(&ltv_bytes).unwrap();
    assert_eq!(original_ltv, new_ltv);
}

#[test]
fn output_test() {
    let my_object_bytes = LTVObjectExample {
        field1: 55,
        field2: None,
    }
    .to_ltv_object();
    assert_eq!(
        my_object_bytes,
        vec![
            5, // length of the object, two bytes
            0, 10, // object identifier
            3,  // length of field1
            1,  // tag of field1
            55, // value of field1
            0
        ]
    )
}

#[test]
fn collection_test() {
    let my_object = LTVObjectExample {
        field1: 55,
        field2: None,
    };
    let obj_bytes = MyObjects::Object1(my_object).to_ltv(ByteOrder::LE);

    assert_eq!(obj_bytes, vec![3, 1, 55, 0])
}

#[test]
fn collection_obj_test() {
    let my_object = LTVObjectExample {
        field1: 55,
        field2: None,
    };
    let obj_bytes = MyObjects::Object1(my_object).to_ltv_object();
    assert_eq!(obj_bytes, vec![5, 0, 10, 3, 1, 55, 0])
}

#[test]
fn collection_obj_test_same_as_single() {
    let o1 = LTVObjectExample {
        field1: 55,
        field2: None,
    };
    assert_eq!(o1.to_ltv_object(), MyObjects::Object1(o1).to_ltv_object());
}

#[test]
fn from_ltv_to_collection() {
    let o1 = LTVObjectExample {
        field1: 55,
        field2: None,
    };
    let sbytes = o1.to_ltv_object();
    let s1 = MyObjects::Object1(o1);

    let s2 = MyObjects::from_ltv_object(&sbytes).unwrap();
    assert_eq!(s1, s2);
}

#[test]
fn ltv_unnamed_strct() {
    let num: u32 = 1234567;
    let obj = LTVObjectUnnamed(num);

    assert_eq!(get_ltv(&num, ByteOrder::BE), get_ltv(&obj, ByteOrder::BE));

    assert_eq!(
        obj,
        LTVObjectUnnamed::from_ltv(10, &get_ltv(&num, ByteOrder::BE), ByteOrder::BE).unwrap()
    );
}

#[test]
fn item_with_unnamed_struct_field() {
    let num: u32 = 1234567;
    let obj = ItemWihtUnnamedField {
        unnamed: LTVObjectUnnamed(num),
    };

    assert_eq!(
        obj,
        ItemWihtUnnamedField::from_ltv(10, &get_ltv(&obj, ByteOrder::BE), ByteOrder::BE).unwrap()
    );
}

#[test]
fn item_with_list() {
    let obj = ItemWithList {
        items: vec![1, 2, 3, 4, 5, 6],
    };

    let bytes = &get_ltv(&obj, ByteOrder::BE);

    assert_eq!(obj, ItemWithList::from_ltv(10, bytes, ByteOrder::BE).unwrap());
}

#[test]
fn item_unnamed_many() {
    let data = vec![2, 1, 1, 2, 1, 2, 2, 2, 3, 2, 1, 4];

    let o = ItemUnnamedMany::from_ltv(1, &data, ByteOrder::LE).unwrap();

    assert_eq!(o.0, vec![1, 2, 4]);
}

#[test]
fn basic_reader() {
    let input_data: &[u8] = &[0x04, 0x01, 0x02, 0x01, 0xFF];
    let reader = LTVReader::new(&input_data[2..], ltv::DEFAULT_ED, 1);

    let field_1 = reader.get_item::<u8>(0x1).unwrap();
    assert_eq!(field_1, 0xFF);
}

#[test]
fn basic_inner_struct_reader() {
    let input_data: &[u8] = &[
        0x04, 0x01, 0x02, 0x01, 0xFF, 0x08, 0x02, 0x02, 0x01, 0x55, 0x03, 0x02, 0x01, 0x00,
    ];
    let reader = LTVReader::new(&input_data[2..], ByteOrder::LE, 1);

    let field_1 = reader.get_item::<u8>(0x1).unwrap();
    assert_eq!(field_1, 0xFF);

    let field_2 = reader.get_item::<InnerStructData>(0x2).unwrap();
    assert_eq!(
        field_2,
        InnerStructData {
            field1: 0x55,
            field2: 0x0001
        }
    );
}

#[test]
fn concrete_object_scenario() {
    let v = ExampleSet {
        field1: 55,
        field2: None,
    };
    assert_eq!(v.to_ltv_object(), vec![4, 10, 2, 1, 55]);
    assert_eq!(ExampleSet::from_ltv_object(&[4, 10, 2, 1, 55]).unwrap(), v);
}

#[test]
fn nested_struct_scenario() {
    let v = ExampleNested {
        field1: InnerStructData {
            field1: 19,
            field2: 77,
        },
        field2: None,
    };
    let inner = InnerStructData {
        field1: 19,
        field2: 77,
    }
    .to_ltv(ByteOrder::BE);
    assert_eq!(inner, vec![2, 1, 19, 3, 2, 0, 77]);
    let bytes = v.to_ltv_object();
    assert_eq!(bytes, vec![10, 10, 8, 1, 2, 1, 19, 3, 2, 0, 77]);
    assert_eq!(ExampleNested::from_ltv_object(&bytes).unwrap(), v);
}

#[test]
fn union_transparency_second_variant() {
    let bytes = LTVObjectCount(0x01020304).to_ltv_object();
    assert_eq!(bytes, vec![5, 0, 11, 4, 3, 2, 1]);
    assert_eq!(MyObjects::Object2(LTVObjectCount(0x01020304)).to_ltv_object(), bytes);
    assert_eq!(
        MyObjects::from_ltv_object(&bytes).unwrap(),
        MyObjects::Object2(LTVObjectCount(0x01020304))
    );
}

#[test]
fn union_unknown_identifier() {
    let r = MyObjects::from_ltv_object(&[2, 0, 99, 7]);
    assert!(matches!(r, Err(ltv::LTVError::NotFound(99))));
    let r = MyObjects::from_ltv(12, &[], ByteOrder::LE);
    assert!(matches!(r, Err(ltv::LTVError::NotFound(12))));
}

#[test]
fn union_variant_failure_is_wrapped() {
    let r = MyObjects::from_ltv(10, &[2, 1, 55], ByteOrder::LE);
    match r {
        Err(ltv::LTVError::InnerParseError(inner, label)) => {
            assert_eq!(label, "MyObjects::Object1");
            match *inner {
                ltv::LTVError::InnerParseError(cause, field) => {
                    assert_eq!(field, "LTVObjectExample::field1");
                    assert!(matches!(
                        *cause,
                        ltv::LTVError::WrongSize {
                            field_id: 1,
                            expected: 2,
                            recieved: 1
                        }
                    ));
                }
                other => panic!("unexpected {:?}", other),
            }
        }
        other => panic!("unexpected {:?}", other),
    }
}

#[test]
fn required_field_absent() {
    let r = InnerStructData::from_ltv(0, &[2, 1, 9], ByteOrder::BE);
    match r {
        Err(ltv::LTVError::InnerParseError(inner, label)) => {
            assert_eq!(label, "InnerStructData::field2");
            assert!(matches!(*inner, ltv::LTVError::NotFound(2)));
        }
        other => panic!("unexpected {:?}", other),
    }
}

#[test]
fn optional_field_present_round_trip() {
    let v = ExampleSet {
        field1: 1,
        field2: Some(200),
    };
    let bytes = v.to_ltv_object();
    assert_eq!(bytes, vec![7, 10, 2, 1, 1, 2, 2, 200]);
    assert_eq!(ExampleSet::from_ltv_object(&bytes).unwrap(), v);
}

#[test]
fn list_frames_repeat_the_tag() {
    let obj = ItemWithList {
        items: vec![1, 2, 3],
    };
    let bytes = obj.to_ltv(ByteOrder::BE);
    assert_eq!(bytes, vec![2, 1, 1, 2, 1, 2, 2, 1, 3]);
    let empty = ItemWithList { items: vec![] };
    assert_eq!(empty.to_ltv(ByteOrder::BE), Vec::<u8>::new());
    assert_eq!(ItemWithList::from_ltv(1, &[], ByteOrder::BE).unwrap(), empty);
}
