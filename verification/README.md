# c509-cert

A parser and encoder for **C509 certificates**, the CBOR encoding of X.509
certificates (`draft-ietf-cose-cbor-encoded-cert`), written in Verus and
proved against its own specification.

```text
C509Certificate = [
   TBSCertificate,
   issuerSignatureValue : any,
]
```

## What is proved

- Every decoder is specified by a spec function over the input bytes: what
  it returns, where it stops, and which inputs it rejects with which class
  of error.
- Every encoder is specified by the bytes it appends.
- Decoding an encoding gives the value back, for certificates, names,
  algorithms, every typed extension and the RFC 3779 address and AS
  number blocks (`law_*` and `lemma_*` proof functions).
- The JSON description of a certificate (`cert_json`) is specified field by
  field. The conversion of an X.509 certificate (`x509`) is specified over
  what `x509-parser` reads from the DER, each reading a named function of
  the DER bytes whose meaning is trusted; what is made of those readings is
  proved field by field.

`minicbor`, `num-bigint`, `oid`, `hex`, `macaddr`, `time` and `x509-parser`
are called through small wrappers whose contracts state what their sources
show; those contracts are trusted, not proved.

## Layout

- `src/`: the library. `cbor` holds the CBOR heads and the wrappers of
  `minicbor`; `repeat` the combinators for arrays and delta chains; one
  module per certificate part and per extension; `registry` the registry
  name tables; `cert_json` the JSON schema; `x509` the X.509 conversion.
- `tests/`: the worked examples of the draft and tests of each module.
- `app/`: the `c509-cert` command line (file and terminal I/O, the `serde`
  reading of the JSON schema).
