use vstd::prelude::*;
use crate::tokenizer::views;

verus! {

/// How many fields a log line holds.
pub const FIELD_COUNT: usize = 30;

/// Position of the field that holds the status code the target answered with.
pub const TARGET_STATUS_CODE: usize = 9;

/// A value that stands for an absent field, or the value itself.
pub open spec fn absent_if(raw: Seq<char>, sentinel: Seq<char>) -> Option<Seq<char>> {
    if raw == sentinel {
        None
    } else {
        Some(raw)
    }
}

/// The placeholder of a field that may be absent: `-1` for the two latencies of the target
/// and of the response, an empty value for the connection trace id, `-` for the other
/// optional fields. `None` for a field that is always present.
pub open spec fn sentinel(i: int) -> Option<Seq<char>> {
    if i == 6 || i == 7 {
        Some(seq!['-', '1'])
    } else if i == 9 || i == 23 || i == 24 || i == 27 || i == 28 {
        Some(seq!['-'])
    } else if i == 29 {
        Some(Seq::empty())
    } else {
        None
    }
}

/// The value of field `i` read from the raw text `raw`.
pub open spec fn field_value(i: int, raw: Seq<char>) -> Option<Seq<char>> {
    match sentinel(i) {
        Some(x) => absent_if(raw, x),
        None => Some(raw),
    }
}

/// The token at position `i`, or an empty text past the end.
pub open spec fn token_or_empty(tokens: Seq<Seq<char>>, i: int) -> Seq<char> {
    if 0 <= i < tokens.len() {
        tokens[i]
    } else {
        Seq::empty()
    }
}

/// The fields of the record built from `tokens`, position by position.
pub open spec fn record_of_tokens(tokens: Seq<Seq<char>>) -> Seq<Option<Seq<char>>> {
    Seq::new(FIELD_COUNT as nat, |i: int| field_value(i, token_or_empty(tokens, i)))
}

/// A field that holds its placeholder is absent; any other value is kept exactly as it
/// was read, and so is a field that has no placeholder.
pub proof fn lemma_sentinel_rule(i: int, raw: Seq<char>)
    requires
        0 <= i < FIELD_COUNT,
    ensures
        field_value(i, raw) is None <==> sentinel(i) == Some(raw),
        field_value(i, raw) is Some ==> field_value(i, raw) == Some(raw),
{
}

/// The view of a field that may be absent.
pub open spec fn opt_view(o: Option<String>) -> Option<Seq<char>> {
    match o {
        Some(s) => Some(s@),
        None => None,
    }
}

/// `None` when `val` is `-`, else a copy of `val`.
pub fn opt_box_str_from_possible_hyphen_value(val: &str) -> (r: Option<String>)
    ensures
        opt_view(r) == absent_if(val@, seq!['-']),
{
    if val.unicode_len() == 1 && val.get_char(0) == '-' {
        assert(val@ =~= seq!['-']);
        None
    } else {
        Some(val.to_owned())
    }
}

/// `None` when `val` is `-1`, else a copy of `val`.
pub fn opt_box_str_from_negative_value(val: &str) -> (r: Option<String>)
    ensures
        opt_view(r) == absent_if(val@, seq!['-', '1']),
{
    if val.unicode_len() == 2 && val.get_char(0) == '-' && val.get_char(1) == '1' {
        assert(val@ =~= seq!['-', '1']);
        None
    } else {
        Some(val.to_owned())
    }
}

/// `None` when `val` is empty, else a copy of `val`.
pub fn opt_box_str_from_empty_value(val: &str) -> (r: Option<String>)
    ensures
        opt_view(r) == absent_if(val@, Seq::empty()),
{
    if val.is_empty() {
        assert(val@ =~= Seq::<char>::empty());
        None
    } else {
        Some(val.to_owned())
    }
}

/// One entry of a load balancer's access log.
#[derive(Clone, Debug, PartialEq, Eq)]
pub struct AccessLog {
    pub log_type: String,
    pub time: String,
    pub elb: String,
    pub client_addr: String,
    pub target_addr: String,
    pub request_processing_time: String,
    pub target_processing_time: Option<String>,
    pub response_processing_time: Option<String>,
    pub elb_status_code: String,
    pub target_status_code: Option<String>,
    pub received_bytes: String,
    pub sent_bytes: String,
    pub request_line: String,
    pub user_agent: String,
    pub ssl_cipher: String,
    pub ssl_protocol: String,
    pub target_group_arn: String,
    pub trace_id: String,
    pub domain_name: String,
    pub chosen_cert_arn: String,
    pub matched_rule_priority: String,
    pub request_creation_time: String,
    pub actions_executed: String,
    pub redirect_url: Option<String>,
    pub error_reason: Option<String>,
    pub target_port_list: String,
    pub target_status_code_list: String,
    pub classification: Option<String>,
    pub classification_reason: Option<String>,
    pub conn_trace_id: Option<String>,
}

impl View for AccessLog {
    type V = Seq<Option<Seq<char>>>;

    /// The fields in log order; a field that is always present shows as `Some`.
    open spec fn view(&self) -> Seq<Option<Seq<char>>> {
        seq![
            Some(self.log_type@),
            Some(self.time@),
            Some(self.elb@),
            Some(self.client_addr@),
            Some(self.target_addr@),
            Some(self.request_processing_time@),
            opt_view(self.target_processing_time),
            opt_view(self.response_processing_time),
            Some(self.elb_status_code@),
            opt_view(self.target_status_code),
            Some(self.received_bytes@),
            Some(self.sent_bytes@),
            Some(self.request_line@),
            Some(self.user_agent@),
            Some(self.ssl_cipher@),
            Some(self.ssl_protocol@),
            Some(self.target_group_arn@),
            Some(self.trace_id@),
            Some(self.domain_name@),
            Some(self.chosen_cert_arn@),
            Some(self.matched_rule_priority@),
            Some(self.request_creation_time@),
            Some(self.actions_executed@),
            opt_view(self.redirect_url),
            opt_view(self.error_reason),
            Some(self.target_port_list@),
            Some(self.target_status_code_list@),
            opt_view(self.classification),
            opt_view(self.classification_reason),
            opt_view(self.conn_trace_id),
        ]
    }
}

/// The token at position `i` of `tokens`, or an empty text past the end.
fn token_or_empty_at(tokens: &Vec<String>, i: usize) -> (r: String)
    ensures
        r@ == token_or_empty(views(tokens@), i as int),
{
    if i < tokens.len() {
        tokens[i].clone()
    } else {
        String::new()
    }
}

impl AccessLog {
    /// Builds a record from the fields of one line: token `i` becomes field `i`, a field past
    /// the last token is empty, and an optional field that holds its placeholder is absent.
    #[verifier::rlimit(40)]
    pub fn from_tokens(tokens: &Vec<String>) -> (r: AccessLog)
        ensures
            r@ == record_of_tokens(views(tokens@)),
    {
        let t0 = token_or_empty_at(tokens, 0);
        let t1 = token_or_empty_at(tokens, 1);
        let t2 = token_or_empty_at(tokens, 2);
        let t3 = token_or_empty_at(tokens, 3);
        let t4 = token_or_empty_at(tokens, 4);
        let t5 = token_or_empty_at(tokens, 5);
        let t6 = token_or_empty_at(tokens, 6);
        let t7 = token_or_empty_at(tokens, 7);
        let t8 = token_or_empty_at(tokens, 8);
        let t9 = token_or_empty_at(tokens, 9);
        let t10 = token_or_empty_at(tokens, 10);
        let t11 = token_or_empty_at(tokens, 11);
        let t12 = token_or_empty_at(tokens, 12);
        let t13 = token_or_empty_at(tokens, 13);
        let t14 = token_or_empty_at(tokens, 14);
        let t15 = token_or_empty_at(tokens, 15);
        let t16 = token_or_empty_at(tokens, 16);
        let t17 = token_or_empty_at(tokens, 17);
        let t18 = token_or_empty_at(tokens, 18);
        let t19 = token_or_empty_at(tokens, 19);
        let t20 = token_or_empty_at(tokens, 20);
        let t21 = token_or_empty_at(tokens, 21);
        let t22 = token_or_empty_at(tokens, 22);
        let t23 = token_or_empty_at(tokens, 23);
        let t24 = token_or_empty_at(tokens, 24);
        let t25 = token_or_empty_at(tokens, 25);
        let t26 = token_or_empty_at(tokens, 26);
        let t27 = token_or_empty_at(tokens, 27);
        let t28 = token_or_empty_at(tokens, 28);
        let t29 = token_or_empty_at(tokens, 29);
        let r = AccessLog {
            log_type: t0,
            time: t1,
            elb: t2,
            client_addr: t3,
            target_addr: t4,
            request_processing_time: t5,
            target_processing_time: opt_box_str_from_negative_value(t6.as_str()),
            response_processing_time: opt_box_str_from_negative_value(t7.as_str()),
            elb_status_code: t8,
            target_status_code: opt_box_str_from_possible_hyphen_value(t9.as_str()),
            received_bytes: t10,
            sent_bytes: t11,
            request_line: t12,
            user_agent: t13,
            ssl_cipher: t14,
            ssl_protocol: t15,
            target_group_arn: t16,
            trace_id: t17,
            domain_name: t18,
            chosen_cert_arn: t19,
            matched_rule_priority: t20,
            request_creation_time: t21,
            actions_executed: t22,
            redirect_url: opt_box_str_from_possible_hyphen_value(t23.as_str()),
            error_reason: opt_box_str_from_possible_hyphen_value(t24.as_str()),
            target_port_list: t25,
            target_status_code_list: t26,
            classification: opt_box_str_from_possible_hyphen_value(t27.as_str()),
            classification_reason: opt_box_str_from_possible_hyphen_value(t28.as_str()),
            conn_trace_id: opt_box_str_from_empty_value(t29.as_str()),
        };
        assert(r@ =~= record_of_tokens(views(tokens@)));
        r
    }

    /// Whether no status code came back from the target.
    pub fn is_of_interest(&self) -> (r: bool)
        ensures
            r == (self@[TARGET_STATUS_CODE as int] is None),
    {
        self.target_status_code.is_none()
    }
}

} // verus!
