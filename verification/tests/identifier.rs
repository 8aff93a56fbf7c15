use scorarium::identifier::{normalize, Error, Kind};

fn n(kind: Kind, value: &str) -> Result<String, Error> {
    normalize(kind, value).map(|n| n.as_str().to_string())
}

#[test]
fn isbn10_upconverts() {
    assert_eq!(
        n(Kind::Isbn, "0-486-23134-8"),
        Ok("978-0-486-23134-1".into())
    );
    assert_eq!(
        n(Kind::Isbn, "0-7935-7224-X"),
        Ok("978-0-7935-7224-3".into())
    );
}

#[test]
fn isbn13_hyphenates_regardless_of_input_separators() {
    for input in [
        "978-1-4950-0871-9",
        "978 1 4950 0871 9",
        "9781495008719",
        "ISBN 978-1-4950-0871-9",
        "ISBN: 978-1-4950-0871-9",
        "ISBN\t978-1-4950-0871-9",
        "isbn-13: 9781495008719",
        "ISBN 13: 9781495008719",
        "ISBN13 9781495008719",
    ] {
        assert_eq!(n(Kind::Isbn, input), Ok("978-1-4950-0871-9".into()));
    }
    for input in ["ISBN-10 0-7935-7224-X", "ISBN 10: 0-7935-7224-X"] {
        assert_eq!(n(Kind::Isbn, input), Ok("978-0-7935-7224-3".into()));
    }
    // The leading 10 is part of the number, not the form's name
    assert_eq!(
        n(Kind::Isbn, "ISBN 108456789X"),
        Ok("978-1-0845-6789-4".into())
    );
}

#[test]
fn isbn_errors() {
    assert_eq!(
        n(Kind::Isbn, "978-1-4950-0871-0"),
        Err(Error::Invalid(Kind::Isbn))
    );
    // Checksum-valid, but 978-67 is not an assigned registration group
    assert_eq!(n(Kind::Isbn, "9786700000007"), Err(Error::OutOfDate));
}

#[test]
fn ismn_hyphenates() {
    assert_eq!(
        n(Kind::Ismn, "M-060-08002-9"),
        Ok("979-0-060-08002-9".into())
    );
    for input in [
        "ISMN M-060-08002-9",
        "ISMN: 979-0-060-08002-9",
        "ISMN-13 979-0-060-08002-9",
        "979-0-060-08002-9",
    ] {
        assert_eq!(n(Kind::Ismn, input), Ok("979-0-060-08002-9".into()));
    }
    assert_eq!(
        n(Kind::Ismn, "9790299102349"),
        Ok("979-0-2991-0234-9".into())
    );
}

#[test]
fn ismn_bad_check_digit() {
    assert_eq!(
        n(Kind::Ismn, "979-0-060-08002-0"),
        Err(Error::Invalid(Kind::Ismn))
    );
}

#[test]
fn free_text_numbers() {
    assert_eq!(n(Kind::PlateNumber, " ut 50061 "), Ok("UT 50061".into()));
    assert_eq!(
        n(Kind::PublisherNumber, "   "),
        Err(Error::Invalid(Kind::PublisherNumber))
    );
}

#[test]
fn kind_names_read_back() {
    for kind in [Kind::Isbn, Kind::Ismn, Kind::PublisherNumber, Kind::PlateNumber] {
        assert_eq!(Kind::from_name(kind.as_str()), Ok(kind));
        assert_eq!(kind.as_str().parse::<Kind>(), Ok(kind));
    }
    assert_eq!(Kind::Isbn.as_str(), "isbn");
    assert_eq!(Kind::PlateNumber.as_str(), "plate_number");
    assert!(Kind::from_name("issn").is_err());
}

#[test]
fn free_text_numbers_are_upper_cased() {
    assert_eq!(n(Kind::PublisherNumber, "ed. 9a "), Ok("ED. 9A".into()));
}

#[test]
fn an_isbn_without_a_range_is_out_of_date() {
    assert_eq!(n(Kind::Isbn, "ISBN 9786700000007"), Err(Error::OutOfDate));
}

#[test]
fn garbage_is_invalid() {
    assert_eq!(n(Kind::Isbn, "not-an-isbn"), Err(Error::Invalid(Kind::Isbn)));
    assert_eq!(n(Kind::Ismn, ""), Err(Error::Invalid(Kind::Ismn)));
}

#[test]
fn error_messages_name_the_kind() {
    assert_eq!(Error::Invalid(Kind::Isbn).message(), "invalid ISBN");
    assert_eq!(Error::Invalid(Kind::PlateNumber).message(), "invalid plate number");
    assert_eq!(
        Error::OutOfDate.message(),
        "scorarium's ISBN ranges are out of date"
    );
    assert_eq!(
        Kind::from_name("issn"),
        Err("unknown identifier kind: issn".to_string())
    );
}

#[test]
fn a_canonical_form_reads_back_as_itself() {
    for (kind, input) in [
        (Kind::Ismn, "M-060-08002-9"),
        (Kind::Ismn, "9790299102349"),
        (Kind::Isbn, "0-486-23134-8"),
        (Kind::PlateNumber, " ut 50061 "),
    ] {
        let once = n(kind, input).unwrap();
        assert_eq!(n(kind, &once), Ok(once.clone()));
    }
}

#[test]
fn isbn_check_marks_and_lengths() {
    // A lowercase x is the same check mark as X
    assert_eq!(
        n(Kind::Isbn, "0-7935-7224-x"),
        Ok("978-0-7935-7224-3".into())
    );
    // A wrong ISBN-10 check digit, an X before the end, and a length that is neither ten nor
    // thirteen are all refused
    assert_eq!(n(Kind::Isbn, "0-7935-7224-1"), Err(Error::Invalid(Kind::Isbn)));
    assert_eq!(n(Kind::Isbn, "0-7935-X224-3"), Err(Error::Invalid(Kind::Isbn)));
    assert_eq!(n(Kind::Isbn, "978-1-4950-0871"), Err(Error::Invalid(Kind::Isbn)));
}
