use rs_simple_logging::fields::StrMap;
use rs_simple_logging::serialize::{ltsv_serializer, serializer_new_from_fn, Serialize};
use rs_simple_logging::{Item, Severity};

#[test]
fn ltsv_level_and_message() {
    let mut item = Item::new("ready", StrMap::new());
    item.severity = Severity::Info;
    let mut buf = String::new();
    ltsv_serializer().serialize(&item, &mut buf);
    assert_eq!(buf, "level:info\tmsg:ready");
}

#[test]
fn ltsv_attributes_then_resource_sorted() {
    let mut attr = StrMap::new();
    attr.insert("z".to_string(), "1".to_string());
    attr.insert("id".to_string(), "42".to_string());
    let mut item = Item::new("m", attr).with_resource_keys(&["service.name", "host.ip"]);
    item.severity = Severity::Warn;
    let mut buf = String::from(">");
    ltsv_serializer().serialize(&item, &mut buf);
    assert_eq!(buf, ">level:warn\tattr.id:42\tattr.z:1\thost.ip:\tservice.name:\tmsg:m");
}

#[test]
fn fn_serializer_appends_what_the_function_returns() {
    let ser = serializer_new_from_fn(|i: &Item| format!("<{}>", i.body));
    let mut buf = String::from("a");
    ser.serialize(&Item::new("b", StrMap::new()), &mut buf);
    assert_eq!(buf, "a<b>");
}
