use milstian_http::request::{BodyContentType, Message, Method, Protocol, SettingValence};

#[test]
fn test_get_message_body_single_part() {
    let response = Message::get_message_body("random=abc&hej=def&def");
    assert!(response.is_some());

    let response_unwrapped = response.unwrap();
    if let BodyContentType::SinglePart(response_unwrapped) = response_unwrapped {
        assert_eq!(
            response_unwrapped.get("random").unwrap().to_string(),
            "abc".to_string()
        );
        assert_eq!(
            response_unwrapped.get("hej").unwrap().to_string(),
            "def".to_string()
        );
        assert_eq!(
            response_unwrapped.get("def").unwrap().to_string(),
            "1".to_string()
        );
        assert!(response_unwrapped.get("defs").is_none());
    }

    let response = Message::get_message_body("");
    assert!(response.is_none());
}

#[test]
fn test_query_tokenizer_scenarios() {
    let response = Message::get_message_body("a=1&b=2&c");
    let response_unwrapped = response.unwrap();
    if let BodyContentType::SinglePart(args) = response_unwrapped {
        assert_eq!(args.get("a").unwrap().to_string(), "1".to_string());
        assert_eq!(args.get("b").unwrap().to_string(), "2".to_string());
        assert_eq!(args.get("c").unwrap().to_string(), "1".to_string());
    } else {
        panic!("Expected a single-part body");
    }
}

#[test]
fn test_query_tokenizer_splits_on_first_equals() {
    let response = Message::get_message_body("a=b=c&v=dGVzdA==");
    let response_unwrapped = response.unwrap();
    if let BodyContentType::SinglePart(args) = response_unwrapped {
        assert_eq!(args.get("a").unwrap().to_string(), "b=c".to_string());
        assert_eq!(args.get("v").unwrap().to_string(), "dGVzdA==".to_string());
    } else {
        panic!("Expected a single-part body");
    }
}

#[test]
fn test_query_tokenizer_duplicate_keys() {
    let response = Message::get_message_body("a=1&a=2");
    let response_unwrapped = response.unwrap();
    if let BodyContentType::SinglePart(args) = response_unwrapped {
        assert_eq!(args.get("a").unwrap().to_string(), "2".to_string());
    } else {
        panic!("Expected a single-part body");
    }
}

#[test]
fn test_get_query_args_from_multipart_blob() {
    let response = Message::get_query_args_from_multipart_blob(
        b"Content-Disposition: form-data; name=\"losen\"\r\n\r\nabc\n123",
    );
    assert!(response.is_some());
    if let Some((query_key, query_value)) = response {
        assert_eq!(query_key, "losen".to_string());
        assert_eq!(
            query_value
                .headers
                .get("Content-Disposition")
                .unwrap()
                .to_string(),
            "form-data; name=\"losen\""
        );
        assert_eq!(query_value.body, b"abc\n123");
    } else {
        panic!("Expected multipart body but received: {:?}", response);
    }

    let response = Message::get_query_args_from_multipart_blob(
        b"Content-Disposition: form-data; name=\"file\"; filename=\"KeePassXC-2.3.1.dmg.sig\"\r\nContent-Type: application/octet-stream\r\n\r\n
-----BEGIN PGP SIGNATURE-----

iQEzBAABCAAdFiEEweTLo61406/YlPngt6ZvA7WQdqgFAlqfE5MACgkQt6ZvA7WQ
dqgnEAgAjtdbsMPaULGXKX6H+fcsYeGEN8OjiUTNz+StwNDkDxhxB4MT0N0lYZ4L
xUv86kwMdWAaxp8pvVWo6gWXTEM5gWmN302bBxkpbhBl9fnq6WdcCCDGs4GM5vHX
lOrHXWTsK+8ayLNZ0dCcP054srAtMmJHscPiuUYPfvKSgLxl+JxkPC147EktCCzv
5O+2AtQPwIEPuaMewFqP9KjaGOhWgAc0nauIKa0ASt9FXXrexq1EoZnoZ3ZQ0p/w
/otAB2D27yQ4kv+X2Rn94Ky9W0lMT2MYEF+/tQH4aEKsdMBQ7REQtfLGFlEzTMB/
BNUI5YCF3PV9MKr3N53vEVYvkbXLbw==
=LO1E
-----END PGP SIGNATURE-----
",
    );

    assert!(response.is_some());
    if let Some((query_key, query_value)) = response {
        assert_eq!(query_key, "file".to_string());
        assert_eq!(
            query_value
                .headers
                .get("Content-Disposition")
                .unwrap()
                .to_string(),
            "form-data; name=\"file\"; filename=\"KeePassXC-2.3.1.dmg.sig\""
        );
    } else {
        panic!("Expected multipart body but received: {:?}", response);
    }

    let response = Message::get_query_args_from_multipart_blob(
        b"okasdokadsokasd oa skoasdk\r\nokadsokasdokoadskods\r\n123123",
    );
    assert!(response.is_none());
}

#[test]
fn test_get_header_field() {
    let response = Message::get_header_field(
        "user-agent: Mozilla/5.0 (X11; Linux x86_64; rv:12.0) Gecko/20100101 Firefox/12.0\r\n",
    );
    assert!(response.is_some());

    let (key, value) = response.unwrap();
    assert_eq!(key, "User-Agent".to_string());
    assert_eq!(
        value.to_string(),
        "Mozilla/5.0 (X11; Linux x86_64; rv:12.0) Gecko/20100101 Firefox/12.0".to_string()
    );

    let response = Message::get_header_field("CACHE-CONTROL: no-cache \r\n");
    assert!(response.is_some());

    let (key, value) = response.unwrap();
    assert_eq!(key, "Cache-Control".to_string());
    assert_eq!(value.to_string(), "no-cache".to_string());

    let response = Message::get_header_field("Just various text here\r\n");
    assert!(response.is_none());

    let response = Message::get_header_field("");
    assert!(response.is_none());

    let response = Message::get_header_field(
        "Content-Type: multipart/form-data; boundary=---------------------------208201381313076108731815782760\r\n",
    );
    assert!(response.is_some());
    let (key, value) = response.unwrap();
    assert_eq!(key, "Content-Type".to_string());
    assert_eq!(value.to_string(), "multipart/form-data; boundary=---------------------------208201381313076108731815782760".to_string());
    assert_eq!(
        value.get_key_value("boundary").unwrap(),
        "---------------------------208201381313076108731815782760".to_string()
    );
}

#[test]
fn test_header_field_scenarios() {
    let (key, value) = Message::get_header_field("X: Y").unwrap();
    assert_eq!(key, "X".to_string());
    assert_eq!(value.to_string(), "Y".to_string());

    assert!(Message::get_header_field("no colon here").is_none());
}

#[test]
fn test_header_field_utf8_value() {
    let (key, value) = Message::get_header_field("X-Note: V\u{e4}rde\r\n").unwrap();
    assert_eq!(key, "X-Note".to_string());
    assert_eq!(value.to_string(), "V\u{e4}rde".to_string());
}

#[test]
fn test_get_request_line() {
    let response = Message::get_request_line("POST /random?abc=test HTTP/0.9\r\n");
    assert!(response.is_some());

    let response_unpacked = response.unwrap();
    assert_eq!(response_unpacked.method, Method::Post);
    assert_eq!(
        response_unpacked.request_uri,
        String::from("/random?abc=test")
    );
    assert_eq!(response_unpacked.request_uri_base, String::from("/random"));
    assert_eq!(response_unpacked.query_string, String::from("abc=test"));
    assert_eq!(
        response_unpacked
            .query_arguments
            .get("abc")
            .unwrap()
            .to_string(),
        String::from("test")
    );
    assert_eq!(response_unpacked.protocol, Protocol::V0_9);

    let response = Message::get_request_line("GET / HTTP/1.0\r\n");
    assert!(response.is_some());

    let response_unpacked = response.unwrap();
    assert_eq!(response_unpacked.method, Method::Get);
    assert_eq!(response_unpacked.request_uri, String::from("/"));
    assert_eq!(response_unpacked.request_uri_base, String::from("/"));
    assert_eq!(response_unpacked.query_string, String::from(""));
    assert_eq!(response_unpacked.protocol, Protocol::V1_0);

    let response = Message::get_request_line("HEAD /moradish.html?test&abc=def HTTP/1.1\r\n");
    assert!(response.is_some());

    let response_unpacked = response.unwrap();
    assert_eq!(response_unpacked.method, Method::Head);
    assert_eq!(
        response_unpacked.request_uri,
        String::from("/moradish.html?test&abc=def")
    );
    assert_eq!(
        response_unpacked.request_uri_base,
        String::from("/moradish.html")
    );
    assert_eq!(response_unpacked.query_string, String::from("test&abc=def"));
    assert_eq!(
        response_unpacked
            .query_arguments
            .get("test")
            .unwrap()
            .to_string(),
        String::from("1")
    );
    assert_eq!(
        response_unpacked
            .query_arguments
            .get("abc")
            .unwrap()
            .to_string(),
        String::from("def")
    );
    assert_eq!(response_unpacked.protocol, Protocol::V1_1);

    let response = Message::get_request_line("OPTIONS /random/random2.txt HTTP/2.0\r\n");
    assert!(response.is_some());

    let response_unpacked = response.unwrap();
    assert_eq!(response_unpacked.method, Method::Options);
    assert_eq!(
        response_unpacked.request_uri,
        String::from("/random/random2.txt")
    );
    assert_eq!(response_unpacked.protocol, Protocol::V2_0);

    let response = Message::get_request_line("GET / HTTP/2.2\r\n");
    assert!(response.is_none());
}

#[test]
fn test_request_line_rejects_unknown_method() {
    assert!(Message::get_request_line("RANDOM /stuff HTTP/1.1\r\n").is_none());
    assert!(Message::get_request_line("GET /a /b HTTP/1.1 extra\r\n").is_none());
}

#[test]
fn test_method_metadata() {
    assert_eq!(
        Message::method_has_request_body(&Method::Head),
        SettingValence::No
    );
    assert_eq!(
        Message::method_has_request_body(&Method::Post),
        SettingValence::Yes
    );
    assert_eq!(
        Message::method_has_request_body(&Method::Get),
        SettingValence::Optional
    );
    assert!(!Message::_method_has_response_body(&Method::Head));
    assert!(Message::_method_has_response_body(&Method::Get));
    assert!(Message::_method_is_safe(&Method::Get));
    assert!(!Message::_method_is_safe(&Method::Post));
    assert!(Message::_method_is_idempotent(&Method::Put));
    assert!(!Message::_method_is_idempotent(&Method::Post));
    assert!(Message::_method_is_cacheable(&Method::Post));
    assert!(!Message::_method_is_cacheable(&Method::Put));
}

#[test]
fn test_get_protocol_text() {
    assert_eq!(Message::get_protocol_text(&Protocol::V0_9), "HTTP/0.9");
    assert_eq!(Message::get_protocol_text(&Protocol::V2_0), "HTTP/2.0");
    assert_eq!(Message::get_protocol_text(&Protocol::Invalid), "INVALID");
}

#[test]
fn test_from_tcp_stream() {
    // GET request with no headers or body
    let response = Message::from_tcp_stream(b"GET / HTTP/2.0\r\n");
    assert!(response.is_some());
    let response_unwrapped = response.expect("GET HTTP2");
    assert_eq!(response_unwrapped.request_line.method, Method::Get);
    assert_eq!(response_unwrapped.request_line.request_uri, "/".to_string());
    assert_eq!(response_unwrapped.request_line.protocol, Protocol::V2_0);

    // POST request with random header and null bytes
    let mut request: Vec<u8> =
        b"POST /random HTTP/1.0\r\nAgent: Random browser\r\n\r\ntest=abc".to_vec();
    request.push(0);
    request.push(0);
    let response = Message::from_tcp_stream(&request);
    assert!(response.is_some());
    assert_eq!(
        "/random".to_string(),
        response.expect("/random").request_line.request_uri
    );

    // POST request with random header
    let response =
        Message::from_tcp_stream(b"POST / HTTP/1.0\r\nAgent: Random browser\r\n\r\ntest=abc");
    assert!(response.is_some());
    let response_unwrapped = response.expect("POST HTTP1");
    assert_eq!(response_unwrapped.request_line.method, Method::Post);
    assert_eq!(response_unwrapped.request_line.protocol, Protocol::V1_0);
    assert_eq!(
        response_unwrapped.headers.get("Agent").expect("Agent").to_string(),
        "Random browser".to_string()
    );
    if let BodyContentType::SinglePart(body) = response_unwrapped.body {
        assert_eq!(
            body.get("test").expect("test-abc").to_string(),
            "abc".to_string()
        );
    }

    // Two invalid  requests
    let response = Message::from_tcp_stream(b"RANDOM /stuff HTTP/2.5\r\n");
    assert!(response.is_none());
    let response = Message::from_tcp_stream(b"");
    assert!(response.is_none());

    // Multi-part with one form-data
    let response = Message::from_tcp_stream(b"POST /?test=abcdef HTTP/1.1\r\nHost: localhost:8888\r\nUser-Agent: Mozilla/5.0 (Macintosh; Intel Mac OS X 10.13; rv:63.0) Gecko/20100101 Firefox/63.0\r\nAccept: text/html,application/xhtml+xml,application/xml;q=0.9,*/*;q=0.8\r\nAccept-Language: en-US,en;q=0.5\r\nAccept-Encoding: gzip, deflate\r\nReferer: http://localhost:8888/?test=abcdef\r\nContent-Type: multipart/form-data; boundary=---------------------------5072966556248019951999579782\r\nContent-Length: 733\r\nDNT: 1\r\nConnection: keep-alive\r\nUpgrade-Insecure-Requests: 1\r\nPragma: no-cache\r\nCache-Control: no-cache\r\n\r\n-----------------------------5072966556248019951999579782\r\nContent-Disposition: form-data; name=\"file\"; filename=\"KeePassXC-2.3.1.dmg.sig\"\r\nContent-Type: application/octet-stream\r\n\r\n-----BEGIN PGP SIGNATURE-----\n\niQEzBAABCAAdFiEEweTLo61406/YlPngt6ZvA7WQdqgFAlqfE5MACgkQt6ZvA7WQ\ndqgnEAgAjtdbsMPaULGXKX6H+fcsYeGEN8OjiUTNz+StwNDkDxhxB4MT0N0lYZ4L\nxUv86kwMdWAaxp8pvVWo6gWXTEM5gWmN302bBxkpbhBl9fnq6WdcCCDGs4GM5vHX\nlOrHXWTsK+8ayLNZ0dCcP054srAtMmJHscPiuUYPfvKSgLxl+JxkPC147EktCCzv\n5O+2AtQPwIEPuaMewFqP9KjaGOhWgAc0nauIKa0ASt9FXXrexq1EoZnoZ3ZQ0p/w\n/otAB2D27yQ4kv+X2Rn94Ky9W0lMT2MYEF+/tQH4aEKsdMBQ7REQtfLGFlEzTMB/\nBNUI5YCF3PV9MKr3N53vEVYvkbXLbw==\n=LO1E\n-----END PGP SIGNATURE-----\n\r\n-----------------------------5072966556248019951999579782--\r\nCAAdFiEEweTLo61406/YlPngt6ZvA7WQdqgFAlqfE5MACgkQt6ZvA7WQ\ndqgnEAgAjtdbsMPaULGXKX6H+fcsYeGEN8OjiUTNz+StwNDkDxhxB4MT0N0lYZ4L\nxUv86kwMdWAaxp8pvVWo6gWXTEM5gWmN302bBxkpbhBl9fnq6WdcCCDGs4GM5vHX\nlOrHXWTsK+8ayLNZ0dCcP054srAtMmJHscPiuUYPfvKSgLxl+JxkPC147");
    assert!(response.is_some());
    let response_unwrapped = response.expect("multipart");
    if let BodyContentType::MultiPart(body) = response_unwrapped.body {
        assert_eq!(
            String::from_utf8(body.get("file").expect("expecting file data").body.clone()).expect("expecting utf-8 file data"),
            "-----BEGIN PGP SIGNATURE-----\n\niQEzBAABCAAdFiEEweTLo61406/YlPngt6ZvA7WQdqgFAlqfE5MACgkQt6ZvA7WQ\ndqgnEAgAjtdbsMPaULGXKX6H+fcsYeGEN8OjiUTNz+StwNDkDxhxB4MT0N0lYZ4L\nxUv86kwMdWAaxp8pvVWo6gWXTEM5gWmN302bBxkpbhBl9fnq6WdcCCDGs4GM5vHX\nlOrHXWTsK+8ayLNZ0dCcP054srAtMmJHscPiuUYPfvKSgLxl+JxkPC147EktCCzv\n5O+2AtQPwIEPuaMewFqP9KjaGOhWgAc0nauIKa0ASt9FXXrexq1EoZnoZ3ZQ0p/w\n/otAB2D27yQ4kv+X2Rn94Ky9W0lMT2MYEF+/tQH4aEKsdMBQ7REQtfLGFlEzTMB/\nBNUI5YCF3PV9MKr3N53vEVYvkbXLbw==\n=LO1E\n-----END PGP SIGNATURE-----\n".to_string()
        );
    } else {
        panic!(
            "Expected multipart content but got: {:?}",
            response_unwrapped
        );
    }

    // Multi-part data with two data
    let response = Message::from_tcp_stream(b"POST /?test=abcdef HTTP/1.1\r\nHost: localhost:8888\r\nUser-Agent: Mozilla/5.0 (Macintosh; Intel Mac OS X 10.13; rv:63.0) Gecko/20100101 Firefox/63.0\r\nAccept: text/html,application/xhtml+xml,application/xml;q=0.9,*/*;q=0.8\r\nAccept-Language: en-US,en;q=0.5\r\nAccept-Encoding: gzip, deflate\r\nReferer: http://localhost:8888/?test=abcdef\r\nContent-Type: multipart/form-data; boundary=-----------------------------3204198641555151219403070096\r\nContent-Length: 733\r\nDNT: 1\r\nConnection: keep-alive\r\nUpgrade-Insecure-Requests: 1\r\nPragma: no-cache\r\nCache-Control: no-cache\r\n\r\n-----------------------------3204198641555151219403070096\r\nContent-Disposition: form-data; name=\"file\"; filename=\"KeePassXC-2.3.3.dmg.DIGEST\"\r\nContent-Type: application/octet-stream\r\n\r\n1219dd686aee2549ef8fe688aeef22e85272a8ccbefdbbb64c0e5601db17fbdb  KeePassXC-2.3.3.dmg\r\n\r\n-----------------------------3204198641555151219403070096\r\nContent-Disposition: form-data; name=\"file2\"; filename=\"KeePassXC-2.3.3.dmg.sig\"\r\nContent-Type: application/octet-stream\r\n\r\n-----BEGIN PGP SIGNATURE-----\n\niQEzBAABCAAdFiEEweTLo61406/YlPngt6ZvA7WQdqgFAlrzMl4ACgkQt6ZvA7WQ\ndqhkrQf9G3r5thluX7Ogx9BCnot2L17nH7DFcwcWe2k1gHyC7ttkbdYSXQXaCDGN\nYmedemyvdE7d/TZxbbPuo09LYvj/+5WAUx8KBJHsE6xMK7kwbZJ5i3BBO2NY7p2b\no68XU+Emg6VuynjoW9xDTQO/2PUSSzJeU9Jql7RXPY2RpJp0+BbGkC356vavZk9a\n8oX8/abn1iZgzfY1lyC4aBNHFf7ycalEbOgGAfw/iT5qtDIihLf4QwFqCKO0/stn\nB118cEtpnKmAQuQMoAqKXlPg8f3xxVf2plJZkRMaynX39ykf3gAeRDnkCoQWx0GN\nFr5IBrP1bBbAWAKn2C4TqKb9QyMwJw==\n=icrk\n-----END PGP SIGNATURE-----\r\n\r\n-----------------------------3204198641555151219403070096--\r\n");
    let response_unwrapped = response.expect("multipart");
    if let BodyContentType::MultiPart(body) = response_unwrapped.body {
        assert_eq!(
            String::from_utf8(body.get("file").expect("expecting file data").body.clone()).expect("expecting utf-8 file data"),
            "1219dd686aee2549ef8fe688aeef22e85272a8ccbefdbbb64c0e5601db17fbdb  KeePassXC-2.3.3.dmg".to_string()
        );
        assert_eq!(
            String::from_utf8(body.get("file2").expect("expecting file data").body.clone()).expect("expecting utf-8 file data"),
            "-----BEGIN PGP SIGNATURE-----\n\niQEzBAABCAAdFiEEweTLo61406/YlPngt6ZvA7WQdqgFAlrzMl4ACgkQt6ZvA7WQ\ndqhkrQf9G3r5thluX7Ogx9BCnot2L17nH7DFcwcWe2k1gHyC7ttkbdYSXQXaCDGN\nYmedemyvdE7d/TZxbbPuo09LYvj/+5WAUx8KBJHsE6xMK7kwbZJ5i3BBO2NY7p2b\no68XU+Emg6VuynjoW9xDTQO/2PUSSzJeU9Jql7RXPY2RpJp0+BbGkC356vavZk9a\n8oX8/abn1iZgzfY1lyC4aBNHFf7ycalEbOgGAfw/iT5qtDIihLf4QwFqCKO0/stn\nB118cEtpnKmAQuQMoAqKXlPg8f3xxVf2plJZkRMaynX39ykf3gAeRDnkCoQWx0GN\nFr5IBrP1bBbAWAKn2C4TqKb9QyMwJw==\n=icrk\n-----END PGP SIGNATURE-----".to_string()
        );
    } else {
        panic!(
            "Expected multipart content but got: {:?}",
            response_unwrapped
        );
    }

    // Get requests should get their message body parsed
    let response = Message::from_tcp_stream(b"GET / HTTP/2.0\r\n\r\nabc=123");
    assert!(response.is_some());
    let response_unwrapped = response.unwrap();
    if let BodyContentType::SinglePart(body) = response_unwrapped.body {
        assert_eq!(body.get("abc").unwrap().to_string(), "123".to_string());
    }

    // HEAD requests should not get their message body parsed
    let response = Message::from_tcp_stream(b"HEAD / HTTP/2.0\r\n\r\nabc=123");
    assert!(response.is_some());
    let response_unwrapped = response.unwrap();
    if let BodyContentType::SinglePart(body) = response_unwrapped.body {
        assert!(body.get("abc").is_none());
    }

    let response = Message::from_tcp_stream(b"html/index.html\r\n");
    assert!(response.is_some());
    let response_unwrapped = response.unwrap();
    assert_eq!(response_unwrapped.request_line.method, Method::Get);
    assert_eq!(
        response_unwrapped.request_line.request_uri,
        "html/index.html".to_string()
    );
    assert_eq!(response_unwrapped.request_line.protocol, Protocol::V0_9);

    let response = Message::from_tcp_stream(&[0; 100]);
    assert!(response.is_none());
}

#[test]
fn test_multipart_single_part_round_trip() {
    let payload = b"PAY\r\nLOAD";
    let request = b"POST /upload HTTP/1.1\r\nContent-Type: multipart/form-data; boundary=---------------------------1234567890\r\n\r\n-----------------------------1234567890\r\nContent-Disposition: form-data; name=\"file\"\r\n\r\nPAY\r\nLOAD\r\n\r\n-----------------------------1234567890--\r\n";
    let response = Message::from_tcp_stream(request).expect("a decoded multipart request");
    if let BodyContentType::MultiPart(body) = response.body {
        assert_eq!(body.get("file").expect("the named part").body, payload);
    } else {
        panic!("Expected a multipart body");
    }
}

#[test]
fn test_multipart_two_sequential_parts() {
    let request = b"POST /upload HTTP/1.1\r\nContent-Type: multipart/form-data; boundary=---------------------------9999\r\n\r\n-----------------------------9999\r\nContent-Disposition: form-data; name=\"alpha\"\r\n\r\nfirst payload\r\n\r\n-----------------------------9999\r\nContent-Disposition: form-data; name=\"beta\"\r\n\r\nsecond payload\r\n\r\n-----------------------------9999--\r\n";
    let response = Message::from_tcp_stream(request).expect("a decoded multipart request");
    if let BodyContentType::MultiPart(body) = response.body {
        assert_eq!(body.get("alpha").expect("first part").body, b"first payload");
        assert_eq!(body.get("beta").expect("second part").body, b"second payload");
    } else {
        panic!("Expected a multipart body");
    }
}
