use liara_core::book::{AddressBook, ContactRow};
use liara_core::contacts::{
    import_action, search_contacts, system_contacts, update_key, Contact, ImportAction,
};
use std::collections::HashMap;

fn contact(id: i64, name: &str, number: &str) -> Contact {
    Contact { id, name: name.to_string(), number: number.to_string(), customized: false }
}

#[test]
fn homonyms_with_prefix_matches_first() {
    let all = vec![
        contact(1, "Gianmarco Verdi", "3330000003"),
        contact(2, "Marco Rossi", "3330000001"),
        contact(3, "Marco Bianchi", "3330000002"),
        contact(4, "Luca Neri", "3330000004"),
    ];
    let marco = search_contacts(&all, "marco");
    assert_eq!(marco.iter().map(|c| c.id).collect::<Vec<_>>(), vec![2, 3, 1]);
    assert_eq!(search_contacts(&all, "  LUCA ").len(), 1);
    assert!(search_contacts(&all, "giuseppe").is_empty());
    assert!(search_contacts(&all, "   ").is_empty());
    let accented = vec![contact(5, "Niccolò Rè", "1")];
    assert_eq!(search_contacts(&accented, "niccolo re").len(), 1);
}

#[test]
fn import_decisions() {
    assert!(matches!(import_action("n/a", None), ImportAction::NoDigits));
    assert!(matches!(import_action("333 123 4567", Some((7, true))), ImportAction::KeepCustomized));
    assert!(matches!(import_action("333 123 4567", Some((7, false))), ImportAction::Rename { id: 7 }));
    match import_action("+39 333 123 4567", None) {
        ImportAction::Insert { key } => assert_eq!(key, "3331234567"),
        _ => panic!("insert"),
    }
}

#[test]
fn edited_number_needs_digits() {
    assert_eq!(update_key("0039 3331234567").unwrap(), "3331234567");
    assert_eq!(update_key("abc").err().unwrap(), "il numero non contiene cifre");
}

#[test]
fn system_address_book_reply() {
    assert_eq!(
        system_contacts("DENIED", &[]).err().unwrap(),
        "Permesso rubrica negato: puoi concederlo dalle impostazioni Android."
    );
    assert!(system_contacts("[[1]]", &[]).err().unwrap().starts_with("rubrica di sistema illeggibile: "));
    let state = vec![("3331234567".to_string(), true)];
    let v = system_contacts(r#"[["Marco","333 123 4567"],["Fisso","n/d"],["Anna","3470000000"]]"#, &state).unwrap();
    assert_eq!(v.len(), 2);
    assert!(v[0].imported && v[0].customized);
    assert_eq!(v[1].name, "Anna");
    assert!(!v[1].imported && !v[1].customized);
}

fn store() -> AddressBook {
    AddressBook::from_rows(Vec::new())
}

fn batch(items: &[(&str, &str)]) -> Vec<(String, String)> {
    items.iter().map(|(n, k)| (n.to_string(), k.to_string())).collect()
}

fn sync_map(c: &AddressBook) -> HashMap<String, bool> {
    c.sync_state().into_iter().collect()
}

#[test]
fn import_dedup_per_numero() {
    let mut c = store();
    assert_eq!(c.import(&batch(&[("Marco Rossi", "333 123 4567")])), 1);
    // the same number written otherwise renames the contact, it does not duplicate it
    assert_eq!(c.import(&batch(&[("Marco R.", "+39 3331234567")])), 0);
    assert_eq!(c.count(), 1);
    assert_eq!(c.contacts()[0].name, "Marco R.");
}

#[test]
fn search_omonimi_e_prefisso() {
    let mut c = store();
    c.import(&batch(&[
        ("Marco Rossi", "3330000001"),
        ("Marco Bianchi", "3330000002"),
        ("Gianmarco Verdi", "3330000003"),
        ("Luca Neri", "3330000004"),
    ]));
    let all = c.contacts();
    let marco = search_contacts(&all, "marco");
    assert_eq!(marco.len(), 3);
    assert!(marco[0].name.starts_with("Marco") && marco[1].name.starts_with("Marco"));
    assert_eq!(search_contacts(&all, "luca").len(), 1);
    assert!(search_contacts(&all, "giuseppe").is_empty());
}

#[test]
fn numero_senza_cifre_scartato() {
    let mut c = store();
    assert_eq!(c.import(&batch(&[("Vuoto", "n/d")])), 0);
    assert_eq!(c.count(), 0);
}

#[test]
fn re_sync_identico_non_ha_nulla_da_fare() {
    let mut c = store();
    let b = batch(&[("Marco Rossi", "3330000001"), ("Luca Neri", "3330000004")]);
    assert_eq!(c.import(&b), 2);
    assert_eq!(c.import(&b), 0, "ri-sync identico = 0 nuovi");
    assert_eq!(c.import(&b), 0, "e ancora 0 (mai doppioni)");
    assert_eq!(c.count(), 2);
}

#[test]
fn contatto_personalizzato_non_viene_ripristinato_dal_sync() {
    let mut c = store();
    c.import(&batch(&[("Marco Rossi", "3330000001")]));
    let id = c.contacts()[0].id;
    c.update(id, "Marco Rossi", "3339999999").unwrap();
    let m = &c.contacts()[0];
    assert_eq!(m.number, "3339999999");
    assert!(m.customized, "modificato = personalizzato");
    assert_eq!(c.import(&batch(&[("Marco Rossi", "3330000001")])), 0);
    assert_eq!(c.count(), 1);
    assert_eq!(c.contacts()[0].number, "3339999999", "il numero personalizzato resta");
    assert_eq!(sync_map(&c).get("3330000001"), Some(&true));
}

#[test]
fn sync_state_marca_importati_e_personalizzati() {
    let mut c = store();
    c.import(&batch(&[("Marco Rossi", "3330000001"), ("Luca Neri", "3330000004")]));
    let luca = c.contacts().into_iter().find(|x| x.name == "Luca Neri").unwrap();
    c.update(luca.id, "Lucactk", "3330000004").unwrap();
    let st = sync_map(&c);
    assert_eq!(st.get("3330000001"), Some(&false), "importato, non personalizzato");
    assert_eq!(st.get("3330000004"), Some(&true), "personalizzato");
    assert_eq!(st.get("3339999999"), None, "mai visto = nuovo");
}

#[test]
fn update_rifiuta_numero_di_un_altro_contatto() {
    let mut c = store();
    c.import(&batch(&[("A", "3330000001"), ("B", "3330000002")]));
    let a = c.contacts().into_iter().find(|x| x.name == "A").unwrap();
    assert!(c.update(a.id, "A", "3330000002").is_err());
}

#[test]
fn book_ids_deletion_and_names() {
    let mut c = store();
    c.import(&batch(&[("A", "3330000001"), ("B", "+39 333 000 0002")]));
    let ids: Vec<i64> = c.contacts().iter().map(|x| x.id).collect();
    assert_eq!(ids, vec![1, 2]);
    assert_eq!(
        c.names_by_key(),
        vec![("3330000001".to_string(), "A".to_string()), ("3330000002".to_string(), "B".to_string())]
    );
    assert_eq!(c.update(7, "X", "123").unwrap_err(), "contatto non trovato");
    assert_eq!(c.update(1, "X", "abc").unwrap_err(), "il numero non contiene cifre");
    c.delete(1);
    assert_eq!(c.count(), 1);
    // a new contact takes the next id after the largest
    c.import(&batch(&[("C", "3330000003")]));
    assert_eq!(c.contacts()[1].id, 3);
    assert_eq!(c.max_id(), 3);
}

#[test]
fn reimport_needs_no_new_id() {
    let key = liara_core::contacts::number_key("333 123 4567");
    let row = ContactRow {
        id: i64::MAX - 1,
        name: "Mario".to_string(),
        number: "333 123 4567".to_string(),
        key: key.clone(),
        origin: key,
        customized: false,
    };
    let mut b = AddressBook::from_rows(vec![row]);
    let items = vec![("Mario".to_string(), "333 123 4567".to_string())];
    assert_eq!(b.import(&items), 0);
    assert_eq!(b.count(), 1);
}
