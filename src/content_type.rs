use vstd::prelude::*;
use vstd::utf8::{decode_utf8, encode_utf8};

use crate::bytes::bytes_eq;

verus! {

/// Media types a response may declare.
#[derive(Debug, Clone, Copy, PartialEq, Eq, Structural)]
pub enum ContentType {
    TextPlain,
    TextHtml,
    TextCss,
    ApplicationJson,
    ApplicationJavascript,
    ApplicationXml,
    ApplicationOctetStream,
    MultipartFormData,
    ApplicationFormUrlEncoded,
    ImagePng,
    ImageJpeg,
    ImageGif,
    AudioMpeg,
    AudioOgg,
    VideoMp4,
    VideoWebm,
    Unknown,
}

impl ContentType {
    /// The media type's name as it stands in a `Content-Type` header.
    pub open spec fn name(&self) -> Seq<char> {
        match self {
            ContentType::TextPlain => "text/plain"@,
            ContentType::TextHtml => "text/html"@,
            ContentType::TextCss => "text/css"@,
            ContentType::ApplicationJson => "application/json"@,
            ContentType::ApplicationJavascript => "application/javascript"@,
            ContentType::ApplicationXml => "application/xml"@,
            ContentType::ApplicationOctetStream => "application/octet-stream"@,
            ContentType::MultipartFormData => "multipart/form-data"@,
            ContentType::ApplicationFormUrlEncoded => "application/x-www-form-urlencoded"@,
            ContentType::ImagePng => "image/png"@,
            ContentType::ImageJpeg => "image/jpeg"@,
            ContentType::ImageGif => "image/gif"@,
            ContentType::AudioMpeg => "audio/mpeg"@,
            ContentType::AudioOgg => "audio/ogg"@,
            ContentType::VideoMp4 => "video/mp4"@,
            ContentType::VideoWebm => "video/webm"@,
            ContentType::Unknown => "unknown"@,
        }
    }

    pub fn as_str(&self) -> (r: &'static str)
        ensures
            r@ == self.name(),
    {
        match self {
            ContentType::TextPlain => "text/plain",
            ContentType::TextHtml => "text/html",
            ContentType::TextCss => "text/css",
            ContentType::ApplicationJson => "application/json",
            ContentType::ApplicationJavascript => "application/javascript",
            ContentType::ApplicationXml => "application/xml",
            ContentType::ApplicationOctetStream => "application/octet-stream",
            ContentType::MultipartFormData => "multipart/form-data",
            ContentType::ApplicationFormUrlEncoded => "application/x-www-form-urlencoded",
            ContentType::ImagePng => "image/png",
            ContentType::ImageJpeg => "image/jpeg",
            ContentType::ImageGif => "image/gif",
            ContentType::AudioMpeg => "audio/mpeg",
            ContentType::AudioOgg => "audio/ogg",
            ContentType::VideoMp4 => "video/mp4",
            ContentType::VideoWebm => "video/webm",
            ContentType::Unknown => "unknown",
        }
    }
}

impl ContentType {
    fn is_named(c: ContentType, b: &[u8]) -> (r: bool)
        ensures
            r == (encode_utf8(c.name()) == b@),
    {
        bytes_eq(c.as_str().as_bytes(), b)
    }

    /// The media type whose name is `b`, byte for byte; `Unknown` for any other text.
    pub fn from_bytes(b: &[u8]) -> (r: ContentType)
        ensures
            r != ContentType::Unknown ==> encode_utf8(r.name()) == b@,
            r == ContentType::Unknown ==> forall|c: ContentType|
                c != ContentType::Unknown ==> encode_utf8(#[trigger] c.name()) != b@,
    {
        if Self::is_named(ContentType::TextPlain, b) {
            return ContentType::TextPlain;
        }
        if Self::is_named(ContentType::TextHtml, b) {
            return ContentType::TextHtml;
        }
        if Self::is_named(ContentType::TextCss, b) {
            return ContentType::TextCss;
        }
        if Self::is_named(ContentType::ApplicationJson, b) {
            return ContentType::ApplicationJson;
        }
        if Self::is_named(ContentType::ApplicationJavascript, b) {
            return ContentType::ApplicationJavascript;
        }
        if Self::is_named(ContentType::ApplicationXml, b) {
            return ContentType::ApplicationXml;
        }
        if Self::is_named(ContentType::ApplicationOctetStream, b) {
            return ContentType::ApplicationOctetStream;
        }
        if Self::is_named(ContentType::MultipartFormData, b) {
            return ContentType::MultipartFormData;
        }
        if Self::is_named(ContentType::ApplicationFormUrlEncoded, b) {
            return ContentType::ApplicationFormUrlEncoded;
        }
        if Self::is_named(ContentType::ImagePng, b) {
            return ContentType::ImagePng;
        }
        if Self::is_named(ContentType::ImageJpeg, b) {
            return ContentType::ImageJpeg;
        }
        if Self::is_named(ContentType::ImageGif, b) {
            return ContentType::ImageGif;
        }
        if Self::is_named(ContentType::AudioMpeg, b) {
            return ContentType::AudioMpeg;
        }
        if Self::is_named(ContentType::AudioOgg, b) {
            return ContentType::AudioOgg;
        }
        if Self::is_named(ContentType::VideoMp4, b) {
            return ContentType::VideoMp4;
        }
        if Self::is_named(ContentType::VideoWebm, b) {
            return ContentType::VideoWebm;
        }
        ContentType::Unknown
    }
}

impl std::str::FromStr for ContentType {
    type Err = ();

    fn from_str(s: &str) -> (r: Result<ContentType, ()>)
        ensures
            r matches Ok(c) && (c != ContentType::Unknown ==> c.name() == s@) && (c
                == ContentType::Unknown ==> forall|d: ContentType|
                d != ContentType::Unknown ==> #[trigger] d.name() != s@),
    {
        let c = ContentType::from_bytes(s.as_bytes());
        proof {
            broadcast use vstd::utf8::encode_utf8_decode_utf8;

            if c != ContentType::Unknown {
                assert(decode_utf8(encode_utf8(c.name())) == decode_utf8(encode_utf8(s@)));
            }
            assert forall|d: ContentType| c == ContentType::Unknown && d != ContentType::Unknown
                implies #[trigger] d.name() != s@ by {
                assert(encode_utf8(d.name()) != encode_utf8(s@));
            }
        }
        Ok(c)
    }
}

} // verus!
