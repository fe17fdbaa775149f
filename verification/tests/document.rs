use rwini::document::{Ini, IniProperty, IniSection};

#[test]
fn test_ini_to_string() {
    let build = || {
        let mut sec = IniSection::new("core".to_string());
        sec.insert_property(IniProperty::new("name".to_string(), "1".to_string()));
        sec.insert_property(IniProperty::new("key".to_string(), "value".to_string()));
        let mut ini = Ini::new();
        ini.insert_section(sec);
        ini
    };
    assert_eq!(build().to_ini_string(), "[core]\nkey:value\nname:1");
    assert_eq!(build().to_ini_string(), build().to_ini_string());
}

#[test]
fn insert_property_replaces_and_returns_old() {
    let mut sec = IniSection::new("s".to_string());
    assert!(sec.insert_property(IniProperty::new("k".to_string(), "1".to_string())).is_none());
    let old = sec.insert_property(IniProperty::new("k".to_string(), "2".to_string()));
    let old = old.unwrap();
    assert_eq!(old.key(), "k");
    assert_eq!(old.value(), "1");
    assert_eq!(sec.value("k"), Some(&"2".to_string()));
}

#[test]
fn remove_property_takes_the_entry_out() {
    let mut sec = IniSection::new("s".to_string());
    sec.insert_property(IniProperty::new("a".to_string(), "1".to_string()));
    sec.insert_property(IniProperty::new("b".to_string(), "2".to_string()));
    let gone = sec.remove_property("a").unwrap();
    assert_eq!(gone.key(), "a");
    assert_eq!(gone.value(), "1");
    assert!(!sec.contains_key("a"));
    assert!(sec.contains_key("b"));
    assert!(sec.remove_property("a").is_none());
}

#[test]
fn insert_section_replaces_and_returns_old() {
    let mut ini = Ini::new();
    let mut s1 = IniSection::new("core".to_string());
    s1.insert_property(IniProperty::new("a".to_string(), "1".to_string()));
    assert!(ini.insert_section(s1).is_none());
    let s2 = IniSection::new("core".to_string());
    let old = ini.insert_section(s2).unwrap();
    assert_eq!(old.name(), "core");
    assert_eq!(old.value("a"), Some(&"1".to_string()));
    assert_eq!(ini.section_count(), 1);
    assert_eq!(ini.section_at(0).property_count(), 0);
}

#[test]
fn remove_section_takes_the_section_out() {
    let mut ini = Ini::new();
    ini.insert_section(IniSection::new("a".to_string()));
    ini.insert_section(IniSection::new("b".to_string()));
    let gone = ini.remove_section("a").unwrap();
    assert_eq!(gone.name(), "a");
    assert_eq!(ini.section_count(), 1);
    assert_eq!(ini.section_at(0).name(), "b");
    assert!(ini.remove_section("a").is_none());
}

#[test]
fn property_accessors() {
    let mut p = IniProperty::new("k".to_string(), "v".to_string());
    assert_eq!(p.key(), "k");
    assert_eq!(p.value(), "v");
    let old_key = p.set_key("k2".to_string());
    assert_eq!(old_key, "k");
    let old_value = p.set_value("v2".to_string());
    assert_eq!(old_value, "v");
    assert_eq!(p.key(), "k2");
    assert_eq!(p.value(), "v2");
    assert_eq!(p.to_ini_string(), "k2:v2");
}

#[test]
fn sections_render_sorted_by_name() {
    let mut ini = Ini::new();
    ini.insert_section(IniSection::new("zz".to_string()));
    let mut sec = IniSection::new("aa".to_string());
    sec.insert_property(IniProperty::new("k".to_string(), "v".to_string()));
    ini.insert_section(sec);
    assert_eq!(ini.to_ini_string(), "[aa]\nk:v\n[zz]\n");
}

#[test]
fn mutable_accessors() {
    let mut p = IniProperty::new("k".to_string(), "v".to_string());
    *p.key_mut() = "k3".to_string();
    *p.value_mut() = "v3".to_string();
    assert_eq!(p.key(), "k3");
    assert_eq!(p.value(), "v3");

    let mut sec = IniSection::new("s".to_string());
    sec.insert_property(IniProperty::new("a".to_string(), "1".to_string()));
    if let Some(v) = sec.value_mut("a") {
        *v = "9".to_string();
    }
    assert_eq!(sec.value("a"), Some(&"9".to_string()));
    assert!(sec.value_mut("missing").is_none());
}
