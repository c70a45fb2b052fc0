//! Handle for an external transcoding process, named by its stream key.

use vstd::prelude::*;
use vstd::string::StringExecFns;

verus! {

/// A transcoder for one stream key.
pub struct Transcoder {
    stream_key: String,
}

/// Where the transcoder reads the stream with the given key.
pub open spec fn input_url_text(key: Seq<char>) -> Seq<char> {
    "rtmp://localhost:1935/live/"@ + key
}

/// Where the transcoder delivers the stream with the given key.
pub open spec fn output_url_text(key: Seq<char>) -> Seq<char> {
    "http://localhost:8888/live/"@ + key + ".flv"@
}

impl Transcoder {
    /// The key this handle was made for.
    pub closed spec fn key(&self) -> Seq<char> {
        self.stream_key@
    }

    /// A transcoder for the stream `stream_key`.
    pub fn new(stream_key: String) -> (t: Self)
        ensures
            t.key() == stream_key@,
    {
        Self { stream_key }
    }

    /// The key this transcoder was made for.
    pub fn stream_key(&self) -> (k: &str)
        ensures
            k@ == self.key(),
    {
        self.stream_key.as_str()
    }

    /// Where the transcoder reads its stream.
    pub fn input_url(&self) -> (url: String)
        ensures
            url@ == input_url_text(self.key()),
    {
        let mut url = String::new();
        url.append("rtmp://localhost:1935/live/");
        url.append(self.stream_key.as_str());
        url
    }

    /// Where the transcoder delivers its stream.
    pub fn output_url(&self) -> (url: String)
        ensures
            url@ == output_url_text(self.key()),
    {
        let mut url = String::new();
        url.append("http://localhost:8888/live/");
        url.append(self.stream_key.as_str());
        url.append(".flv");
        url
    }

    /// The arguments that the transcoding process is started with: read
    /// the input, copy video and audio as they are, write FLV to the
    /// output.
    pub fn process_args(&self) -> (args: Vec<String>)
        ensures
            args@.len() == 9,
            args@[0]@ == "-i"@,
            args@[1]@ == input_url_text(self.key()),
            args@[2]@ == "-c:v"@,
            args@[3]@ == "copy"@,
            args@[4]@ == "-c:a"@,
            args@[5]@ == "copy"@,
            args@[6]@ == "-f"@,
            args@[7]@ == "flv"@,
            args@[8]@ == output_url_text(self.key()),
    {
        let mut args: Vec<String> = Vec::with_capacity(9);
        args.push("-i".to_owned());
        args.push(self.input_url());
        args.push("-c:v".to_owned());
        args.push("copy".to_owned());
        args.push("-c:a".to_owned());
        args.push("copy".to_owned());
        args.push("-f".to_owned());
        args.push("flv".to_owned());
        args.push(self.output_url());
        args
    }
}

} // verus!
