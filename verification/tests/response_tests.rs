use milstian_http::response::Message;
use milstian_http::strmap::StrMap;

#[test]
fn test_to_string() {
    let mut message = Message::new(
        "HTTP/1.0".to_string(),
        "200 OK".to_string(),
        StrMap::new(),
        b"<html><body>Nothing here</body></html>".to_vec(),
    );
    assert_eq!(
        message.to_string(),
        "HTTP/1.0 200 OK\r\n\r\n<html><body>Nothing here</body></html>".to_string()
    );
}

#[test]
fn test_to_bytes() {
    let mut message = Message::new(
        "HTTP/1.0".to_string(),
        "200 OK".to_string(),
        StrMap::new(),
        b"<html><body>Nothing here</body></html>".to_vec(),
    );
    assert_eq!(
        message.to_bytes(),
        b"HTTP/1.0 200 OK\r\n\r\n<html><body>Nothing here</body></html>".to_vec()
    );
}

#[test]
fn test_header_to_string() {
    let message = Message::new(
        "HTTP/1.0".to_string(),
        "200 OK".to_string(),
        StrMap::new(),
        b"<html><body>Nothing here</body></html>".to_vec(),
    );
    assert_eq!(message.header_to_string(), "HTTP/1.0 200 OK\r\n\r\n".to_string());
}

#[test]
fn test_headers_sorted_by_key() {
    let mut headers: StrMap<String> = StrMap::new();
    headers.insert("Server".to_string(), "none".to_string());
    headers.insert("Content-Type".to_string(), "text/html".to_string());
    let mut message = Message::new(
        "HTTP/1.1".to_string(),
        "200 OK".to_string(),
        headers,
        b"ok".to_vec(),
    );
    assert_eq!(
        message.to_string(),
        "HTTP/1.1 200 OK\r\nContent-Type: text/html\r\nServer: none\r\n\r\nok".to_string()
    );
}

#[test]
fn test_to_string_drops_non_utf8_body() {
    let mut message = Message::new(
        "HTTP/1.0".to_string(),
        "200 OK".to_string(),
        StrMap::new(),
        vec![0xff, 0xfe],
    );
    assert_eq!(message.to_string(), "HTTP/1.0 200 OK\r\n\r\n".to_string());
    assert_eq!(
        message.to_bytes(),
        vec![
            b'H', b'T', b'T', b'P', b'/', b'1', b'.', b'0', b' ', b'2', b'0', b'0', b' ', b'O',
            b'K', b'\r', b'\n', b'\r', b'\n', 0xff, 0xfe,
        ]
    );
}

#[test]
fn test_header_overwrite_keeps_one_entry() {
    let mut headers: StrMap<String> = StrMap::new();
    headers.insert("Server".to_string(), "one".to_string());
    headers.insert("Server".to_string(), "two".to_string());
    let mut message = Message::new(
        "HTTP/1.1".to_string(),
        "404 Not Found".to_string(),
        headers,
        Vec::new(),
    );
    assert_eq!(
        message.to_bytes(),
        b"HTTP/1.1 404 Not Found\r\nServer: two\r\n\r\n".to_vec()
    );
}
