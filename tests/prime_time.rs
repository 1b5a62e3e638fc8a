use protohackers::number::{is_float_literal, is_prime, is_prime_big_int, parse_big};
use protohackers::prime_time::{handle_request_data, parse_json, respond, PrimeError, Request};

#[test]
fn tests() {
    assert_eq!(parse_json("{}").unwrap(), Request {
        method: String::new(),
        number: String::new()
    });
    assert_eq!(parse_json("{\"key\": \"value\"}").unwrap(), Request {
        method: String::new(),
        number: String::new()
    });
    assert_eq!(parse_json("{\"k\": 1}").unwrap(), Request {
        method: String::new(),
        number: String::new()
    });
    assert_eq!(parse_json("{\"k\": 1, \"k2\": 2}").unwrap(), Request {
        method: String::new(),
        number: String::new()
    });
    assert_eq!(
        parse_json("{\"method\": \"isPrime\", \"number\": 123}").unwrap(),
        Request {
            method: String::from("isPrime"),
            number: String::from("123")
        }
    );
    assert_eq!(
        parse_json("{\"k\": {}, \"method\": \"isPrime\", \"number\": 123}").unwrap(),
        Request {
            method: String::from("isPrime"),
            number: String::from("123")
        }
    );
    assert_eq!(
        parse_json("{\"k\": {}, \"method\": \"isPrime\", \"number\": 123, \"k\": {}}").unwrap(),
        Request {
            method: String::from("isPrime"),
            number: String::from("123")
        }
    );
    assert_eq!(
        parse_json("{\"k\": {\"method\":\"not{Prime\"}, \"method\": \"isPrime\", \"number\": 123}").unwrap(),
        Request {
            method: String::from("isPrime"),
            number: String::from("123")
        }
    );
}

#[test]
fn handle_request_big_number() {
    assert_eq!(
        handle_request_data(Ok(Request {
            method: String::from("isPrime"),
            number: String::from("465664798725654230307600049329275256128334622729792136683073")
        }))
        .unwrap(),
        "{\"method\": \"isPrime\", \"prime\": false}\n"
    );
}

#[test]
fn prime_test() {
    assert!(is_prime(2));
}

#[test]
fn small_numbers_by_trial_division() {
    let primes: Vec<u128> = (0..60).filter(|&n| is_prime(n)).collect();
    assert_eq!(primes, vec![2, 3, 5, 7, 11, 13, 17, 19, 23, 29, 31, 37, 41, 43, 47, 53, 59]);
    assert!(is_prime(1_000_003));
    assert!(!is_prime(1_000_001));
    assert!(!is_prime(49));
}

#[test]
fn big_numbers_by_trial_division() {
    assert!(is_prime_big_int(parse_big("7").unwrap()));
    assert!(!is_prime_big_int(parse_big("9").unwrap()));
    assert!(is_prime_big_int(parse_big("+1000003").unwrap()));
    assert!(!is_prime_big_int(parse_big("1020847100762815390390123822295304634371").unwrap()));
    assert!(!is_prime_big_int(parse_big("340282366920938463463374607431768211456").unwrap()));
    assert!(parse_big("12a").is_none());
    assert!(parse_big("").is_none());
}

#[test]
fn answers_prime_requests() {
    let answer = |line: &str| handle_request_data(parse_json(line));
    assert_eq!(
        answer("{\"method\":\"isPrime\",\"number\":7}").unwrap(),
        "{\"method\": \"isPrime\", \"prime\": true}\n"
    );
    assert_eq!(
        answer("{\"number\": 8, \"method\": \"isPrime\"}").unwrap(),
        "{\"method\": \"isPrime\", \"prime\": false}\n"
    );
    assert_eq!(
        answer("{\"method\":\"isPrime\",\"number\":7.0}").unwrap(),
        "{\"method\": \"isPrime\", \"prime\": false}\n"
    );
    assert_eq!(
        answer("{\"method\":\"isPrime\",\"number\":-7}").unwrap(),
        "{\"method\": \"isPrime\", \"prime\": false}\n"
    );
    assert_eq!(
        answer("{\"method\":\"isPrime\",\"number\":1e1}").unwrap(),
        "{\"method\": \"isPrime\", \"prime\": false}\n"
    );
    assert_eq!(
        answer("{\"method\":\"isPrime\",\"number\":\"7\"}"),
        Err(PrimeError::InvalidNumber(String::from("\"7\"")))
    );
    assert_eq!(
        answer("{\"method\":\"isPrime\",\"number\":abc}"),
        Err(PrimeError::InvalidNumber(String::from("abc")))
    );
    assert_eq!(
        answer("{\"method\":\"isPrime\"}"),
        Err(PrimeError::InvalidNumber(String::new()))
    );
    assert_eq!(
        answer("{\"method\":\"isComposite\",\"number\":7}"),
        Err(PrimeError::InvalidMethod(String::from("isComposite")))
    );
}

#[test]
fn refuses_malformed_json() {
    assert_eq!(parse_json("[1]"), Err(PrimeError::Expected('{', '[')));
    assert_eq!(parse_json(""), Err(PrimeError::UnexpectedEnd));
    assert_eq!(parse_json("{\"method\" \"isPrime\"}"), Err(PrimeError::Expected(':', '"')));
    assert_eq!(parse_json("{\"method\": \"isPrime"), Err(PrimeError::UnexpectedEnd));
    assert_eq!(parse_json("{\"a\": 1 \"b\": 2}").unwrap().method, "");
    assert_eq!(
        parse_json("{\"method\": \"is\\\"Prime\"}").unwrap().method,
        "is\"Prime"
    );
}

#[test]
fn error_messages() {
    assert_eq!(
        PrimeError::Expected('{', '[').message(),
        "Malformed JSON: '{' expected, '[' found"
    );
    assert_eq!(
        PrimeError::UnexpectedEnd.message(),
        "Malformed JSON: unexpected end of token stream"
    );
    assert_eq!(
        PrimeError::InvalidMethod(String::from("x")).message(),
        "Malformed request: invalid method x"
    );
    assert_eq!(
        PrimeError::InvalidNumber(String::from("y")).message(),
        "Malformed request: invalid number y"
    );
}

#[test]
fn float_literals() {
    for ok in ["1", "+1", "-1.5", "1.", ".5", "1e5", "1E-5", "inf", "-Infinity", "NaN"] {
        assert!(is_float_literal(ok), "{}", ok);
    }
    for bad in ["", ".", "e5", "1e", "1.2.3", "abc", " 1", "1 ", "--1", "infin"] {
        assert!(!is_float_literal(bad), "{}", bad);
    }
}

#[test]
fn replies_to_a_batch() {
    let r = respond("{\"method\":\"isPrime\",\"number\":3}\n{\"method\":\"isPrime\",\"number\":4}\n");
    assert_eq!(r.writes, vec![
        String::from("{\"method\": \"isPrime\", \"prime\": true}\n"),
        String::from("{\"method\": \"isPrime\", \"prime\": false}\n"),
    ]);
    assert!(!r.close);

    let r = respond("{\"method\":\"isPrime\",\"number\":3}\nbad\n{\"method\":\"isPrime\",\"number\":4}\n");
    assert_eq!(r.writes.len(), 2);
    assert_eq!(r.writes[1], "Malformed JSON: '{' expected, 'b' found");
    assert!(r.close);

    let r = respond("  \n");
    assert_eq!(r.writes, vec![String::from("MALFORMED: Empty")]);
    assert!(r.close);
}
