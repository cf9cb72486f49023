use ingest::headers::HeaderView;

fn view(headers: &[(&str, &str)]) -> HeaderView {
    let entries: Vec<(String, Vec<u8>)> = headers
        .iter()
        .map(|(k, v)| (k.to_string(), v.as_bytes().to_vec()))
        .collect();
    HeaderView::new(&entries)
}

fn text(v: Vec<u8>) -> String {
    String::from_utf8(v).unwrap()
}

fn _sort<T>(v: Option<Vec<T>>) -> Option<Vec<T>>
where
    T: Ord,
{
    v.map(|mut v| {
        v.sort();
        v
    })
}

#[test]
fn test_processor_arg_using() {
    let url = "https://example.com";
    let method = "POST";
    let headers = view(&[("A", "B"), ("C", "D")]);
    let mut headers_opt = Some(vec![
        ("url".to_owned(), url.to_owned()),
        ("method".to_owned(), method.to_owned()),
    ]);
    for (k, v) in headers.items() {
        headers_opt.as_mut().unwrap().push((k, text(v)));
    }

    assert_eq!(
        _sort(headers_opt),
        _sort(Some(vec![
            ("url".to_owned(), url.to_owned()),
            ("method".to_owned(), method.to_owned()),
            ("a".to_owned(), "B".to_owned()),
            ("c".to_owned(), "D".to_owned()),
        ]))
    );
}

#[test]
fn test_processor_headers_getlist() {
    let headers = view(&[("X-Test", "A"), ("X-Test", "B"), ("X-Test", "C")]);
    let vals = headers.get_all("x-tEsT");
    let headers_opt: Option<Vec<(String, String)>> = Some(
        vals.into_iter()
            .enumerate()
            .map(|(i, v)| (format!("x-test-{}", i), text(v)))
            .collect(),
    );

    assert_eq!(
        headers_opt,
        Some(vec![
            ("x-test-0".to_owned(), "A".to_owned()),
            ("x-test-1".to_owned(), "B".to_owned()),
            ("x-test-2".to_owned(), "C".to_owned()),
        ])
    );
}

#[test]
fn test_processor_headers_getitem() {
    let headers = view(&[("X-Test", "Q"), ("X-Test", "W")]);
    let val = headers.get("x-tEsT").unwrap();
    let headers_opt: Option<Vec<(String, String)>> = Some(vec![("x-test".to_owned(), text(val))]);

    assert_eq!(
        headers_opt,
        Some(vec![("x-test".to_owned(), "Q".to_owned())])
    );
}

#[test]
fn test_processor_headers_get() {
    let headers = view(&[("X-Test", "Q"), ("X-Test", "W")]);
    let val = headers
        .get("x-tEsT")
        .map(text)
        .unwrap_or("notfound".to_owned());
    let headers_opt: Option<Vec<(String, String)>> = Some(vec![("x-test".to_owned(), val)]);

    assert_eq!(
        headers_opt,
        Some(vec![("x-test".to_owned(), "Q".to_owned())])
    );
}

#[test]
fn test_processor_headers_get_default() {
    let headers = view(&[]);
    let val = headers
        .get("x-tEsT")
        .map(text)
        .unwrap_or("notfound".to_owned());
    let headers_opt: Option<Vec<(String, String)>> = Some(vec![("x-test".to_owned(), val)]);

    assert_eq!(
        headers_opt,
        Some(vec![("x-test".to_owned(), "notfound".to_owned())])
    );
}

#[test]
fn test_processor_headers_contain() {
    let headers = view(&[("X-Test", "Q")]);
    let val = if headers.contains("x-tEsT") { "True" } else { "False" };
    let headers_opt: Option<Vec<(String, String)>> = Some(vec![("x-test".to_owned(), val.to_owned())]);

    assert_eq!(
        headers_opt,
        Some(vec![("x-test".to_owned(), "True".to_owned())])
    );
}

#[test]
fn test_processor_headers_length() {
    let headers = view(&[("X-Test", "Q"), ("X-TeSt", "W"), ("X-TeSt-2", "E")]);
    let headers_opt: Option<Vec<(String, String)>> = Some(vec![("x-test".to_owned(), format!("{}", headers.len()))]);

    assert_eq!(
        headers_opt,
        Some(vec![("x-test".to_owned(), "3".to_owned())])
    );
}

#[test]
fn test_processor_headers_iter() {
    let headers = view(&[("X-Test", "Q"), ("X-TeSt", "W"), ("X-TeSt-2", "E")]);
    let mut response_headers = Vec::new();
    for k in headers.names() {
        let v = headers.get(&k).unwrap();
        response_headers.push((k, text(v)));
    }
    let headers_opt: Option<Vec<(String, String)>> = Some(response_headers);

    assert_eq!(
        _sort(headers_opt),
        _sort(Some(vec![
            ("x-test".to_owned(), "Q".to_owned()),
            ("x-test-2".to_owned(), "E".to_owned()),
        ]))
    );
}

#[test]
fn test_processor_headers_items() {
    let headers = view(&[("X-Test", "Q"), ("X-TeSt", "W"), ("X-TeSt-2", "E")]);
    let headers_opt: Option<Vec<(String, String)>> = Some(
        headers
            .items()
            .into_iter()
            .map(|(k, v)| (k, text(v)))
            .collect(),
    );

    assert_eq!(
        _sort(headers_opt),
        _sort(Some(vec![
            ("x-test".to_owned(), "Q".to_owned()),
            ("x-test".to_owned(), "W".to_owned()),
            ("x-test-2".to_owned(), "E".to_owned()),
        ]))
    );
}

#[test]
fn header_view_keeps_non_utf8_values() {
    let entries = vec![("Raw".to_owned(), vec![0xff, 0xfe])];
    let headers = HeaderView::new(&entries);
    assert_eq!(headers.get("RAW"), Some(vec![0xff, 0xfe]));
    assert_eq!(headers.get_all("raw"), vec![vec![0xff, 0xfe]]);
    assert_eq!(headers.names(), vec!["raw".to_owned()]);
}
