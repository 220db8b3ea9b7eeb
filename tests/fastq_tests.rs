use fsizes::{fastq_record, FastqParse};

#[test]
fn reads_one_record() {
    match fastq_record("@r1\nACGT\n+\nIIII\n@r2") {
        FastqParse::Parsed(rest, rec) => {
            assert_eq!(rec.id, "r1");
            assert_eq!(rec.sequence, "ACGT");
            assert_eq!(rec.quality, "IIII");
            assert_eq!(rest, "@r2");
        }
        other => panic!("unexpected {:?}", other),
    }
}

#[test]
fn reads_crlf_record() {
    match fastq_record("@id\r\nAC\r\n+\r\n!!\r\n") {
        FastqParse::Parsed(rest, rec) => {
            assert_eq!(rec.id, "id");
            assert_eq!(rec.sequence, "AC");
            assert_eq!(rec.quality, "!!");
            assert_eq!(rest, "");
        }
        other => panic!("unexpected {:?}", other),
    }
}

#[test]
fn short_input_is_incomplete() {
    for s in ["", "@", "@r1", "@r1\nAC", "@r1\nAC\n", "@r1\nAC\n+", "@r1\nAC\n+\nII", "@r\r"] {
        assert!(matches!(fastq_record(s), FastqParse::Incomplete), "{:?}", s);
    }
}

#[test]
fn malformed_input_is_invalid() {
    for s in ["r1\nAC\n+\nII\n", "@r1\nAC\n-\nII\n", "@r1\rX", "@r1\nAC\n+x\nII\n"] {
        assert!(matches!(fastq_record(s), FastqParse::Invalid), "{:?}", s);
    }
}

#[test]
fn splits_whole_records_and_keeps_the_tail() {
    let batch = fsizes::split_records("@a\nAC\n+\nII\n@b\r\nG\r\n+\r\n#\r\n@c\nTT");
    assert!(!batch.invalid);
    assert_eq!(batch.records.len(), 2);
    assert_eq!(batch.records[0].id, "a");
    assert_eq!(batch.records[1].sequence, "G");
    assert_eq!(batch.records[1].quality, "#");
    assert_eq!(batch.rest, "@c\nTT");
}

#[test]
fn split_stops_at_malformed_record() {
    let batch = fsizes::split_records("@a\nAC\n+\nII\nxyz\n");
    assert!(batch.invalid);
    assert_eq!(batch.records.len(), 1);
    assert_eq!(batch.rest, "xyz\n");
}
