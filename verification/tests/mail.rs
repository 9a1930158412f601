use liara_core::mail::{
    clean_password, config_for_ui, config_write, fetch_range, imap_settings, is_sent_attribute, search_emails,
    sent_folder_candidates, smtp_settings, uses_starttls, ConfigWrite,
};
use liara_core::mailtext::{extract_text, read_message, MailPart};
use liara_core::mailbox::Mailbox;
use liara_core::records::EmailFull;

fn part(mime: &str, body: Option<&str>, subparts: Vec<MailPart>) -> MailPart {
    MailPart { mimetype: mime.to_string(), body: body.map(|s| s.to_string()), subparts }
}

fn s(x: &str) -> Option<String> {
    Some(x.to_string())
}

#[test]
fn single_part_message_is_its_body() {
    assert_eq!(extract_text(&part("text/plain", Some("ciao"), vec![])), "ciao");
    assert_eq!(extract_text(&part("text/html", None, vec![])), "");
}

#[test]
fn plain_text_part_is_preferred() {
    let m = part(
        "multipart/alternative",
        Some("raw"),
        vec![part("text/html", Some("<b>ciao</b>"), vec![]), part("text/plain", Some("ciao"), vec![])],
    );
    assert_eq!(extract_text(&m), "ciao");
}

#[test]
fn blank_plain_part_falls_back_to_nested_text() {
    let m = part(
        "multipart/mixed",
        Some("raw"),
        vec![
            part("text/plain", Some("   "), vec![]),
            part("multipart/alternative", None, vec![part("text/plain", Some("dentro"), vec![])]),
        ],
    );
    assert_eq!(extract_text(&m), "dentro");
    let empty = part("multipart/mixed", Some("corpo"), vec![part("image/png", None, vec![])]);
    assert_eq!(extract_text(&empty), "corpo");
}

#[test]
fn imap_and_smtp_settings() {
    let imap = imap_settings(&s(" imap.example.com:993 "), &s(" 143 "), &s(" me@example.com ")).unwrap();
    assert_eq!(imap.host, "imap.example.com");
    assert_eq!(imap.port, 143);
    assert_eq!(imap.user, "me@example.com");
    let imap = imap_settings(&s("imap.example.com"), &s("x"), &s("me@example.com")).unwrap();
    assert_eq!(imap.port, 993);
    assert_eq!(imap_settings(&s("  "), &None, &s("me")).err().unwrap(), "Host IMAP mancante");
    assert_eq!(imap_settings(&s("h"), &None, &None).err().unwrap(), "Email mancante");
    let smtp = smtp_settings(&s("smtp.example.com"), &None, &s("me@example.com")).unwrap();
    assert_eq!(smtp.port, 465);
    assert_eq!(smtp_settings(&None, &None, &s("me")).err().unwrap(), "Host SMTP mancante");
    assert!(uses_starttls(587));
    assert!(!uses_starttls(465));
}

#[test]
fn fetch_the_last_messages() {
    assert_eq!(fetch_range(0, 30), None);
    assert_eq!(fetch_range(100, 30).as_deref(), Some("71:100"));
    assert_eq!(fetch_range(10, 30).as_deref(), Some("1:10"));
}

#[test]
fn sent_folder_recognised() {
    assert!(is_sent_attribute("\\Sent"));
    assert!(is_sent_attribute("\\sent"));
    assert!(!is_sent_attribute("\\Drafts"));
    assert_eq!(sent_folder_candidates()[0], "[Gmail]/Sent Mail");
    assert_eq!(sent_folder_candidates().len(), 6);
}

#[test]
fn password_strips_whitespace_in_cleaning() {
    assert_eq!(clean_password("abcd efgh\tijkl\n").as_deref(), Some("abcdefghijkl"));
    assert_eq!(clean_password("   "), None);
    assert_eq!(clean_password(""), None);
}

#[test]
fn config_rows() {
    assert!(matches!(config_write("__has_password", "true"), ConfigWrite::Skip));
    assert!(matches!(config_write("password", ""), ConfigWrite::Skip));
    match config_write("password", "segreta") {
        ConfigWrite::Password(p) => assert_eq!(p, "segreta"),
        _ => panic!("password row"),
    }
    assert!(matches!(config_write("imap_host", "x"), ConfigWrite::Plain));
}

fn mail(id: i64, sender: &str, subject: &str, body: &str) -> EmailFull {
    EmailFull {
        id,
        sender: sender.to_string(),
        subject: subject.to_string(),
        date: String::new(),
        body: body.to_string(),
    }
}

#[test]
fn search_ignores_case_and_keeps_order() {
    let rows = vec![
        mail(3, "Mario <m@x.it>", "Fattura", "..."),
        mail(2, "Anna", "Cena", "la FATTURA di ieri"),
        mail(1, "Luca", "Ciao", "niente"),
    ];
    let r = search_emails(&rows, "fattura", 10);
    assert_eq!(r.iter().map(|e| e.id).collect::<Vec<_>>(), vec![3, 2]);
    let r = search_emails(&rows, "FATTURA", 1);
    assert_eq!(r.iter().map(|e| e.id).collect::<Vec<_>>(), vec![3]);
    assert!(search_emails(&rows, "zzz", 5).is_empty());
}

#[test]
fn settings_never_show_the_password() {
    let rows = vec![
        ("imap_host".to_string(), "imap.x.it".to_string()),
        ("password".to_string(), "vecchia".to_string()),
        ("email".to_string(), "me@x.it".to_string()),
    ];
    let ui = config_for_ui(&rows, true);
    assert_eq!(
        ui,
        vec![
            ("imap_host".to_string(), "imap.x.it".to_string()),
            ("email".to_string(), "me@x.it".to_string()),
            ("__has_password".to_string(), "1".to_string()),
        ]
    );
    assert_eq!(config_for_ui(&rows, false).len(), 2);
}

#[test]
fn password_strips_whitespace() {
    // app passwords are shown in groups of four letters separated by spaces
    assert_eq!(clean_password("abcd efgh ijkl mnop").as_deref(), Some("abcdefghijklmnop"));
}

#[test]
fn empty_password_not_stored() {
    assert!(matches!(config_write("imap_host", "h"), ConfigWrite::Plain));
    assert!(matches!(config_write("password", ""), ConfigWrite::Skip));
}

#[test]
fn raw_message_headers_and_single_body() {
    let raw = b"From: Mario <m@x.it>\r\nSubject: Ciao\r\nDate: Mon, 1 Jan 2024 10:00:00 +0000\r\n\r\nCorpo semplice\r\n";
    let m = read_message(raw).unwrap();
    assert_eq!(m.from, "Mario <m@x.it>");
    assert_eq!(m.subject, "Ciao");
    assert_eq!(m.date, "Mon, 1 Jan 2024 10:00:00 +0000");
    assert!(m.root.subparts.is_empty());
    assert_eq!(extract_text(&m.root).trim(), "Corpo semplice");
}

#[test]
fn raw_message_prefers_plain_part() {
    let raw = ["Subject: Misto\r\n", "Content-Type: multipart/alternative; boundary=\"XX\"\r\n", "\r\n", "--XX\r\n", "Content-Type: text/html; charset=utf-8\r\n", "\r\n", "<p>html</p>\r\n", "--XX\r\n", "Content-Type: text/plain; charset=utf-8\r\n", "Content-Transfer-Encoding: base64\r\n", "\r\n", "dGVzdG8gc2VtcGxpY2U=\r\n", "--XX--\r\n"].concat();
    let m = read_message(raw.as_bytes()).unwrap();
    assert_eq!(m.from, "");
    assert_eq!(m.subject, "Misto");
    assert_eq!(m.root.mimetype, "multipart/alternative");
    assert_eq!(m.root.subparts.len(), 2);
    assert_eq!(m.root.subparts[0].mimetype, "text/html");
    assert_eq!(extract_text(&m.root).trim(), "testo semplice");
}

#[test]
fn raw_message_nested_parts_keep_their_order() {
    let raw = ["Content-Type: multipart/mixed; boundary=\"OUT\"\r\n", "\r\n", "--OUT\r\n", "Content-Type: multipart/alternative; boundary=\"IN\"\r\n", "\r\n", "--IN\r\n", "Content-Type: text/html\r\n", "\r\n", "<b>ciao</b>\r\n", "--IN\r\n", "Content-Type: text/plain\r\n", "\r\n", "ciao annidato\r\n", "--IN--\r\n", "--OUT\r\n", "Content-Type: application/pdf\r\n", "\r\n", "xyz\r\n", "--OUT--\r\n"].concat();
    let m = read_message(raw.as_bytes()).unwrap();
    assert_eq!(m.root.subparts.len(), 2);
    assert_eq!(m.root.subparts[0].subparts.len(), 2);
    assert_eq!(m.root.subparts[1].mimetype, "application/pdf");
    assert_eq!(extract_text(&m.root).trim(), "ciao annidato");
}

fn mailbox() -> Mailbox {
    Mailbox::from_rows(Vec::new())
}

#[test]
fn store_email_dedup_by_uid_folder() {
    let mut s = mailbox();
    assert!(s.store_email(1, "INBOX", "a@x.it", "Ciao", "corpo", "2026-06-27"));
    assert!(!s.store_email(1, "INBOX", "a@x.it", "Ciao", "corpo", "2026-06-27"), "stesso uid+cartella = duplicato");
    // same uid, different folder is a distinct message
    assert!(s.store_email(1, "SENT", "a@x.it", "Ciao", "corpo", "2026-06-27"));
}

#[test]
fn list_get_delete() {
    let mut s = mailbox();
    s.store_email(10, "INBOX", "mittente@x.it", "Oggetto", "Testo del corpo", "2026-06-27");
    let list = s.list_in("INBOX");
    assert_eq!(list.len(), 1);
    assert_eq!(list[0].sender, "mittente@x.it");
    assert_eq!(list[0].subject, "Oggetto");
    let full = s.get(list[0].id).unwrap();
    assert_eq!(full.body, "Testo del corpo");
    let id = list[0].id;
    // delete is a soft delete: to the trash, out of the inbox
    s.delete(id);
    assert!(s.list_in("INBOX").is_empty());
    assert_eq!(s.list_trash().len(), 1);
    // restore brings it back to the inbox
    s.restore(id);
    assert_eq!(s.list_in("INBOX").len(), 1);
    assert!(s.list_trash().is_empty());
    // purge deletes for good
    s.delete(id);
    s.purge(id);
    assert!(s.list_trash().is_empty());
    assert!(s.get(id).is_none());
}

#[test]
fn search_finds_by_decrypted_text() {
    let mut s = mailbox();
    s.store_email(30, "INBOX", "banca@x.it", "Estratto conto", "saldo disponibile", "2026-06-27");
    s.store_email(31, "INBOX", "amico@x.it", "Pranzo?", "ci vediamo", "2026-06-27");
    let hits = search_emails(&s.searchable(), "estratto", 10);
    assert_eq!(hits.len(), 1);
    assert_eq!(hits[0].subject, "Estratto conto");
}

#[test]
fn mailbox_newest_first_seen_and_empty_trash() {
    let mut s = mailbox();
    s.store_email(1, "INBOX", "a", "primo", "x", "d1");
    s.store_email(2, "INBOX", "b", "secondo", "y", "d2");
    s.store_email(3, "SENT", "me", "inviato", "z", "d3");
    let inbox = s.list_in("INBOX");
    assert_eq!(inbox.iter().map(|e| e.subject.as_str()).collect::<Vec<_>>(), vec!["secondo", "primo"]);
    assert!(!inbox[0].seen);
    s.get(inbox[0].id);
    assert!(s.list_in("INBOX")[0].seen);
    assert_eq!(s.recent_in("INBOX", 1).len(), 1);
    assert_eq!(s.recent_in("SENT", 10)[0].body, "z");
    s.delete(1);
    s.delete(2);
    assert_eq!(s.list_trash().len(), 2);
    s.purge(0);
    assert!(s.list_trash().is_empty());
    assert_eq!(s.searchable().len(), 1);
    assert_eq!(s.max_id(), 3);
}
