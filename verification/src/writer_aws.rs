//! Configuration of the CloudWatch-style remote sink: whether uploading is
//! enabled and which log group and stream a writer targets. The network
//! client itself lives outside the library; what is resolved here is the
//! decision part of setting one up.

use vstd::prelude::*;

verus! {

/// Remote-sink options: uploading is enabled explicitly; a log group name
/// is then required, while the stream name may be left to a fallback
/// (conventionally the host's name).
pub struct AWSArgs {
    pub aws: bool,
    pub aws_log_group_name: Option<String>,
    pub aws_log_stream_name: Option<String>,
}

/// The resolved target of the CloudWatch-style sink: group, stream, and
/// the per-record retry budget its transport is allowed.
pub struct AWSLogsWriter {
    pub log_group_name: String,
    pub log_stream_name: String,
    pub max_retries: u32,
}

impl AWSLogsWriter {
    /// Resolve the remote-sink target: nothing while uploading is
    /// disabled; otherwise the configured group, and the configured stream
    /// name with `fallback_stream_name` taking its place when absent.
    pub fn new(args: AWSArgs, max_retries: u32, fallback_stream_name: String) -> (r: Option<
        AWSLogsWriter,
    >)
        requires
            args.aws ==> args.aws_log_group_name is Some,
        ensures
            r is Some <==> args.aws,
            args.aws ==> ({
                let w = r->Some_0;
                &&& w.log_group_name == args.aws_log_group_name->Some_0
                &&& w.max_retries == max_retries
                &&& (args.aws_log_stream_name is Some ==> w.log_stream_name
                    == args.aws_log_stream_name->Some_0)
                &&& (args.aws_log_stream_name is None ==> w.log_stream_name
                    == fallback_stream_name)
            }),
    {
        if !args.aws {
            return None;
        }
        let log_group_name = match args.aws_log_group_name {
            Some(g) => g,
            None => {
                return None;
            },
        };
        let log_stream_name = match args.aws_log_stream_name {
            Some(s) => s,
            None => fallback_stream_name,
        };
        Some(AWSLogsWriter { log_group_name, log_stream_name, max_retries })
    }
}

} // verus!
