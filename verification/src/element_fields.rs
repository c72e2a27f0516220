//! The elements that each kind of document asks for.
use vstd::prelude::*;
use crate::text::{begins_with, contains, finishes_with, has_text, same_text};

verus! {

/// An element of a document: its key, its label, and whether it must be there.
pub struct ElementFieldDefinition {
    pub key: String,
    pub label: String,
    pub required: bool,
}

/// An element as data.
pub struct FieldModel {
    pub key: Seq<char>,
    pub label: Seq<char>,
    pub required: bool,
}

impl View for ElementFieldDefinition {
    type V = FieldModel;

    open spec fn view(&self) -> FieldModel {
        FieldModel { key: self.key@, label: self.label@, required: self.required }
    }
}

pub open spec fn fields_model(v: Seq<ElementFieldDefinition>) -> Seq<FieldModel> {
    Seq::new(v.len(), |i: int| v[i]@)
}

pub open spec fn spec_field(key: Seq<char>, label: Seq<char>, required: bool) -> FieldModel {
    FieldModel { key, label, required }
}

/// One element.
pub fn field(key: &str, label: &str, required: bool) -> (r: ElementFieldDefinition)
    ensures
        r@ == spec_field(key@, label@, required),
{
    ElementFieldDefinition {
        key: String::from_str(key),
        label: String::from_str(label),
        required,
    }
}

/// Appends one element.
fn put(fields: &mut Vec<ElementFieldDefinition>, key: &str, label: &str, required: bool)
    ensures
        fields_model(final(fields)@) == fields_model(old(fields)@).push(
            spec_field(key@, label@, required),
        ),
{
    let ghost before = fields_model(fields@);
    fields.push(field(key, label, required));
    assert(fields_model(fields@) =~= before.push(spec_field(key@, label@, required)));
}

fn no_fields() -> (r: Vec<ElementFieldDefinition>)
    ensures
        fields_model(r@) == Seq::<FieldModel>::empty(),
{
    let r: Vec<ElementFieldDefinition> = Vec::new();
    assert(fields_model(r@) =~= Seq::<FieldModel>::empty());
    r
}

/// The elements of a complaint.
pub open spec fn complaint_fields() -> Seq<FieldModel> {
    seq![
        spec_field("parties"@, "当事人及基本信息"@, true),
        spec_field("claims"@, "诉讼请求"@, true),
        spec_field("facts"@, "事实经过"@, true),
        spec_field("legal_basis"@, "理由与法律依据"@, true),
        spec_field("evidence"@, "证据及证明目的"@, false),
        spec_field("court"@, "受理法院"@, true),
        spec_field("signature"@, "具状人"@, true),
        spec_field("date"@, "日期"@, false),
    ]
}

fn make_complaint_fields() -> (r: Vec<ElementFieldDefinition>)
    ensures
        fields_model(r@) == complaint_fields(),
{
    let mut r = no_fields();
    put(&mut r, "parties", "当事人及基本信息", true);
    put(&mut r, "claims", "诉讼请求", true);
    put(&mut r, "facts", "事实经过", true);
    put(&mut r, "legal_basis", "理由与法律依据", true);
    put(&mut r, "evidence", "证据及证明目的", false);
    put(&mut r, "court", "受理法院", true);
    put(&mut r, "signature", "具状人", true);
    put(&mut r, "date", "日期", false);
    r
}

/// The elements of a defense.
pub open spec fn defense_fields() -> Seq<FieldModel> {
    seq![
        spec_field("parties"@, "当事人及基本信息"@, true),
        spec_field("defense_requests"@, "答辩请求"@, true),
        spec_field("objections"@, "逐项答辩意见"@, true),
        spec_field("facts"@, "事实与理由"@, true),
        spec_field("evidence"@, "证据及证明目的"@, false),
        spec_field("court"@, "受理机关"@, true),
        spec_field("signature"@, "答辩人"@, true),
        spec_field("date"@, "日期"@, false),
    ]
}

fn make_defense_fields() -> (r: Vec<ElementFieldDefinition>)
    ensures
        fields_model(r@) == defense_fields(),
{
    let mut r = no_fields();
    put(&mut r, "parties", "当事人及基本信息", true);
    put(&mut r, "defense_requests", "答辩请求", true);
    put(&mut r, "objections", "逐项答辩意见", true);
    put(&mut r, "facts", "事实与理由", true);
    put(&mut r, "evidence", "证据及证明目的", false);
    put(&mut r, "court", "受理机关", true);
    put(&mut r, "signature", "答辩人", true);
    put(&mut r, "date", "日期", false);
    r
}

/// The elements of an application.
pub open spec fn application_fields() -> Seq<FieldModel> {
    seq![
        spec_field("parties"@, "申请人、被申请人及基本信息"@, true),
        spec_field("applications"@, "申请事项"@, true),
        spec_field("facts"@, "事实与理由"@, true),
        spec_field("evidence"@, "证据及附件"@, false),
        spec_field("authority"@, "提交机关"@, true),
        spec_field("signature"@, "申请人签名或盖章"@, true),
        spec_field("date"@, "日期"@, false),
    ]
}

fn make_application_fields() -> (r: Vec<ElementFieldDefinition>)
    ensures
        fields_model(r@) == application_fields(),
{
    let mut r = no_fields();
    put(&mut r, "parties", "申请人、被申请人及基本信息", true);
    put(&mut r, "applications", "申请事项", true);
    put(&mut r, "facts", "事实与理由", true);
    put(&mut r, "evidence", "证据及附件", false);
    put(&mut r, "authority", "提交机关", true);
    put(&mut r, "signature", "申请人签名或盖章", true);
    put(&mut r, "date", "日期", false);
    r
}

/// The elements of a statement.
pub open spec fn statement_fields() -> Seq<FieldModel> {
    seq![
        spec_field("parties"@, "陈述人及相关主体"@, true),
        spec_field("position"@, "意见与结论"@, true),
        spec_field("facts"@, "事实与理由"@, true),
        spec_field("evidence"@, "证据及附件"@, false),
        spec_field("authority"@, "提交机关"@, true),
        spec_field("signature"@, "签名或盖章"@, true),
        spec_field("date"@, "日期"@, false),
    ]
}

fn make_statement_fields() -> (r: Vec<ElementFieldDefinition>)
    ensures
        fields_model(r@) == statement_fields(),
{
    let mut r = no_fields();
    put(&mut r, "parties", "陈述人及相关主体", true);
    put(&mut r, "position", "意见与结论", true);
    put(&mut r, "facts", "事实与理由", true);
    put(&mut r, "evidence", "证据及附件", false);
    put(&mut r, "authority", "提交机关", true);
    put(&mut r, "signature", "签名或盖章", true);
    put(&mut r, "date", "日期", false);
    r
}

/// The further elements of a dispute over a loan.
pub open spec fn lending_fields() -> Seq<FieldModel> {
    seq![
        spec_field("loan_delivery"@, "借款合意与交付"@, true),
        spec_field("repayment"@, "还款期限与履行情况"@, true),
        spec_field("interest"@, "利息约定与计算"@, false),
    ]
}

fn make_lending_fields() -> (r: Vec<ElementFieldDefinition>)
    ensures
        fields_model(r@) == lending_fields(),
{
    let mut r = no_fields();
    put(&mut r, "loan_delivery", "借款合意与交付", true);
    put(&mut r, "repayment", "还款期限与履行情况", true);
    put(&mut r, "interest", "利息约定与计算", false);
    r
}

/// The further elements of a dispute over a divorce.
pub open spec fn divorce_fields() -> Seq<FieldModel> {
    seq![
        spec_field("marriage"@, "婚姻登记与感情状况"@, true),
        spec_field("children"@, "子女抚养安排"@, false),
        spec_field("property_debt"@, "共同财产与债务"@, false),
    ]
}

fn make_divorce_fields() -> (r: Vec<ElementFieldDefinition>)
    ensures
        fields_model(r@) == divorce_fields(),
{
    let mut r = no_fields();
    put(&mut r, "marriage", "婚姻登记与感情状况", true);
    put(&mut r, "children", "子女抚养安排", false);
    put(&mut r, "property_debt", "共同财产与债务", false);
    r
}

/// The further elements of a dispute over a sale.
pub open spec fn sales_fields() -> Seq<FieldModel> {
    seq![
        spec_field("contract_subject"@, "合同标的与价款"@, true),
        spec_field("delivery_acceptance"@, "交付与验收"@, true),
        spec_field("payment_default"@, "付款与违约情况"@, true),
    ]
}

fn make_sales_fields() -> (r: Vec<ElementFieldDefinition>)
    ensures
        fields_model(r@) == sales_fields(),
{
    let mut r = no_fields();
    put(&mut r, "contract_subject", "合同标的与价款", true);
    put(&mut r, "delivery_acceptance", "交付与验收", true);
    put(&mut r, "payment_default", "付款与违约情况", true);
    r
}

/// The further elements of a dispute over property management.
pub open spec fn property_service_fields() -> Seq<FieldModel> {
    seq![
        spec_field("service_basis"@, "物业服务合同与服务范围"@, true),
        spec_field("fee_standard"@, "收费标准与期间"@, true),
        spec_field("arrears"@, "欠费明细与催缴情况"@, true),
    ]
}

fn make_property_service_fields() -> (r: Vec<ElementFieldDefinition>)
    ensures
        fields_model(r@) == property_service_fields(),
{
    let mut r = no_fields();
    put(&mut r, "service_basis", "物业服务合同与服务范围", true);
    put(&mut r, "fee_standard", "收费标准与期间", true);
    put(&mut r, "arrears", "欠费明细与催缴情况", true);
    r
}

/// The further elements of a dispute over employment.
pub open spec fn labor_fields() -> Seq<FieldModel> {
    seq![
        spec_field("employment"@, "劳动关系与用工期间"@, true),
        spec_field("employment_dispute"@, "工资、解除或其他争议事项"@, true),
        spec_field("arbitration"@, "劳动仲裁前置程序"@, true),
    ]
}

fn make_labor_fields() -> (r: Vec<ElementFieldDefinition>)
    ensures
        fields_model(r@) == labor_fields(),
{
    let mut r = no_fields();
    put(&mut r, "employment", "劳动关系与用工期间", true);
    put(&mut r, "employment_dispute", "工资、解除或其他争议事项", true);
    put(&mut r, "arbitration", "劳动仲裁前置程序", true);
    r
}

/// The further elements of a dispute over a traffic accident.
pub open spec fn traffic_fields() -> Seq<FieldModel> {
    seq![
        spec_field("accident_liability"@, "事故经过与责任认定"@, true),
        spec_field("injury_loss"@, "损害后果与赔偿项目"@, true),
        spec_field("insurance"@, "车辆与保险情况"@, true),
    ]
}

fn make_traffic_fields() -> (r: Vec<ElementFieldDefinition>)
    ensures
        fields_model(r@) == traffic_fields(),
{
    let mut r = no_fields();
    put(&mut r, "accident_liability", "事故经过与责任认定", true);
    put(&mut r, "injury_loss", "损害后果与赔偿项目", true);
    put(&mut r, "insurance", "车辆与保险情况", true);
    r
}

/// The elements of a list of evidence.
pub open spec fn evidence_list_fields() -> Seq<FieldModel> {
    seq![
        spec_field("case_info"@, "案件及提交人信息"@, true),
        spec_field("evidence_items"@, "证据编号、名称、来源与页数"@, true),
        spec_field("proof_purpose"@, "各项证据的证明目的"@, true),
        spec_field("submission"@, "份数与提交方式"@, false),
        spec_field("signature"@, "提交人签名或盖章"@, true),
        spec_field("date"@, "日期"@, false),
    ]
}

fn make_evidence_list_fields() -> (r: Vec<ElementFieldDefinition>)
    ensures
        fields_model(r@) == evidence_list_fields(),
{
    let mut r = no_fields();
    put(&mut r, "case_info", "案件及提交人信息", true);
    put(&mut r, "evidence_items", "证据编号、名称、来源与页数", true);
    put(&mut r, "proof_purpose", "各项证据的证明目的", true);
    put(&mut r, "submission", "份数与提交方式", false);
    put(&mut r, "signature", "提交人签名或盖章", true);
    put(&mut r, "date", "日期", false);
    r
}

/// The elements of a power of attorney.
pub open spec fn attorney_fields() -> Seq<FieldModel> {
    seq![
        spec_field("principal"@, "委托人信息"@, true),
        spec_field("agent"@, "受托人信息"@, true),
        spec_field("matter"@, "委托事项与案件信息"@, true),
        spec_field("authority_scope"@, "代理权限"@, true),
        spec_field("term"@, "委托期限"@, false),
        spec_field("signature"@, "委托人签名"@, true),
        spec_field("date"@, "日期"@, false),
    ]
}

fn make_attorney_fields() -> (r: Vec<ElementFieldDefinition>)
    ensures
        fields_model(r@) == attorney_fields(),
{
    let mut r = no_fields();
    put(&mut r, "principal", "委托人信息", true);
    put(&mut r, "agent", "受托人信息", true);
    put(&mut r, "matter", "委托事项与案件信息", true);
    put(&mut r, "authority_scope", "代理权限", true);
    put(&mut r, "term", "委托期限", false);
    put(&mut r, "signature", "委托人签名", true);
    put(&mut r, "date", "日期", false);
    r
}

/// The elements of an application for arbitration.
pub open spec fn arbitration_fields() -> Seq<FieldModel> {
    seq![
        spec_field("parties"@, "申请人、被申请人及基本信息"@, true),
        spec_field("applications"@, "仲裁请求"@, true),
        spec_field("arbitration_basis"@, "仲裁协议与管辖依据"@, true),
        spec_field("facts"@, "事实与理由"@, true),
        spec_field("evidence"@, "证据及证明目的"@, false),
        spec_field("authority"@, "仲裁委员会"@, true),
        spec_field("signature"@, "申请人签名或盖章"@, true),
        spec_field("date"@, "日期"@, false),
    ]
}

fn make_arbitration_fields() -> (r: Vec<ElementFieldDefinition>)
    ensures
        fields_model(r@) == arbitration_fields(),
{
    let mut r = no_fields();
    put(&mut r, "parties", "申请人、被申请人及基本信息", true);
    put(&mut r, "applications", "仲裁请求", true);
    put(&mut r, "arbitration_basis", "仲裁协议与管辖依据", true);
    put(&mut r, "facts", "事实与理由", true);
    put(&mut r, "evidence", "证据及证明目的", false);
    put(&mut r, "authority", "仲裁委员会", true);
    put(&mut r, "signature", "申请人签名或盖章", true);
    put(&mut r, "date", "日期", false);
    r
}

/// The elements of an application for administrative reconsideration.
pub open spec fn reconsideration_fields() -> Seq<FieldModel> {
    seq![
        spec_field("parties"@, "申请人与被申请人信息"@, true),
        spec_field("applications"@, "复议请求"@, true),
        spec_field("administrative_action"@, "被复议行政行为"@, true),
        spec_field("facts"@, "事实与理由"@, true),
        spec_field("evidence"@, "证据及附件"@, false),
        spec_field("authority"@, "行政复议机关"@, true),
        spec_field("signature"@, "申请人签名或盖章"@, true),
        spec_field("date"@, "日期"@, false),
    ]
}

fn make_reconsideration_fields() -> (r: Vec<ElementFieldDefinition>)
    ensures
        fields_model(r@) == reconsideration_fields(),
{
    let mut r = no_fields();
    put(&mut r, "parties", "申请人与被申请人信息", true);
    put(&mut r, "applications", "复议请求", true);
    put(&mut r, "administrative_action", "被复议行政行为", true);
    put(&mut r, "facts", "事实与理由", true);
    put(&mut r, "evidence", "证据及附件", false);
    put(&mut r, "authority", "行政复议机关", true);
    put(&mut r, "signature", "申请人签名或盖章", true);
    put(&mut r, "date", "日期", false);
    r
}

/// The elements of the statement of a third party.
pub open spec fn third_party_fields() -> Seq<FieldModel> {
    seq![
        spec_field("parties"@, "第三人及相关主体信息"@, true),
        spec_field("disputed_decision"@, "被诉决定与争议标的"@, true),
        spec_field("position"@, "陈述意见与请求"@, true),
        spec_field("facts"@, "事实与理由"@, true),
        spec_field("evidence"@, "证据及附件"@, false),
        spec_field("authority"@, "提交机关"@, true),
        spec_field("signature"@, "第三人签名或盖章"@, true),
        spec_field("date"@, "日期"@, false),
    ]
}

fn make_third_party_fields() -> (r: Vec<ElementFieldDefinition>)
    ensures
        fields_model(r@) == third_party_fields(),
{
    let mut r = no_fields();
    put(&mut r, "parties", "第三人及相关主体信息", true);
    put(&mut r, "disputed_decision", "被诉决定与争议标的", true);
    put(&mut r, "position", "陈述意见与请求", true);
    put(&mut r, "facts", "事实与理由", true);
    put(&mut r, "evidence", "证据及附件", false);
    put(&mut r, "authority", "提交机关", true);
    put(&mut r, "signature", "第三人签名或盖章", true);
    put(&mut r, "date", "日期", false);
    r
}

/// The elements of a category of documents.
pub open spec fn common_of(category: Seq<char>) -> Seq<FieldModel> {
    if category == "起诉状"@ {
        complaint_fields()
    } else if category == "答辩状"@ || category == "调解答辩意见书"@ {
        defense_fields()
    } else if category == "申请书"@ || category == "调解申请书"@ || category == "其他"@ {
        application_fields()
    } else {
        statement_fields()
    }
}

/// The elements of a category of documents.
pub fn common_fields(category: &str) -> (r: Vec<ElementFieldDefinition>)
    ensures
        fields_model(r@) == common_of(category@),
{
    if same_text(category, "起诉状") {
        make_complaint_fields()
    } else if same_text(category, "答辩状") || same_text(category, "调解答辩意见书") {
        make_defense_fields()
    } else if same_text(category, "申请书") || same_text(category, "调解申请书") || same_text(
        category,
        "其他",
    ) {
        make_application_fields()
    } else {
        make_statement_fields()
    }
}

/// The further elements that the cause of action in the name of a document
/// brings.
pub open spec fn refined_of(name: Seq<char>) -> Seq<FieldModel> {
    if contains(name, "民间借贷"@) {
        lending_fields()
    } else if contains(name, "离婚"@) {
        divorce_fields()
    } else if contains(name, "买卖合同"@) {
        sales_fields()
    } else if contains(name, "物业服务"@) {
        property_service_fields()
    } else if contains(name, "劳动争议"@) || contains(name, "劳动纠纷"@) {
        labor_fields()
    } else if contains(name, "机动车交通事故"@) {
        traffic_fields()
    } else {
        Seq::empty()
    }
}

/// The further elements that the cause of action in the name of a document
/// brings.
pub fn refined_cause_fields(name: &str) -> (r: Vec<ElementFieldDefinition>)
    ensures
        fields_model(r@) == refined_of(name@),
{
    if has_text(name, "民间借贷") {
        make_lending_fields()
    } else if has_text(name, "离婚") {
        make_divorce_fields()
    } else if has_text(name, "买卖合同") {
        make_sales_fields()
    } else if has_text(name, "物业服务") {
        make_property_service_fields()
    } else if has_text(name, "劳动争议") || has_text(name, "劳动纠纷") {
        make_labor_fields()
    } else if has_text(name, "机动车交通事故") {
        make_traffic_fields()
    } else {
        no_fields()
    }
}

/// The elements of a document that has a form of its own.
pub open spec fn special_of(name: Seq<char>) -> Option<Seq<FieldModel>> {
    if name == "证据清单"@ {
        Some(evidence_list_fields())
    } else if name == "授权委托书（个人）"@ {
        Some(attorney_fields())
    } else if name == "仲裁申请书"@ {
        Some(arbitration_fields())
    } else if "行政复议申请书"@.is_prefix_of(name) {
        Some(reconsideration_fields())
    } else if "意见陈述书"@.is_suffix_of(name) {
        Some(third_party_fields())
    } else {
        None
    }
}

/// The elements of a document that has a form of its own.
pub fn special_fields(name: &str) -> (r: Option<Vec<ElementFieldDefinition>>)
    ensures
        match r {
            Some(f) => special_of(name@) == Some(fields_model(f@)),
            None => special_of(name@) is None,
        },
{
    if same_text(name, "证据清单") {
        Some(make_evidence_list_fields())
    } else if same_text(name, "授权委托书（个人）") {
        Some(make_attorney_fields())
    } else if same_text(name, "仲裁申请书") {
        Some(make_arbitration_fields())
    } else if begins_with(name, "行政复议申请书") {
        Some(make_reconsideration_fields())
    } else if finishes_with(name, "意见陈述书") {
        Some(make_third_party_fields())
    } else {
        None
    }
}

/// No two of the elements have the same key.
pub open spec fn keys_differ(fields: Seq<FieldModel>) -> bool {
    forall|i: int, j: int|
        0 <= i < j < fields.len() ==> (#[trigger] fields[i]).key != (#[trigger] fields[j]).key
}

proof fn lemma_complaint_elements()
    ensures
        keys_differ(complaint_fields()),
        forall|i: int|
            0 <= i < complaint_fields().len() ==> ((#[trigger] complaint_fields()[i]).required <==> complaint_fields()[i].key
                != "evidence"@ && complaint_fields()[i].key != "date"@),
{
    reveal_strlit("claims");
    reveal_strlit("court");
    reveal_strlit("date");
    reveal_strlit("evidence");
    reveal_strlit("facts");
    reveal_strlit("legal_basis");
    reveal_strlit("parties");
    reveal_strlit("signature");
    let f = complaint_fields();
    assert(f[0].key.len() == 7 && f[0].key[0] == 'p');
    assert(f[1].key.len() == 6 && f[1].key[0] == 'c');
    assert(f[2].key.len() == 5 && f[2].key[0] == 'f');
    assert(f[3].key.len() == 11 && f[3].key[0] == 'l');
    assert(f[4].key.len() == 8 && f[4].key[0] == 'e');
    assert(f[5].key.len() == 5 && f[5].key[0] == 'c');
    assert(f[6].key.len() == 9 && f[6].key[0] == 's');
    assert(f[7].key.len() == 4 && f[7].key[0] == 'd');
}

proof fn lemma_defense_elements()
    ensures
        keys_differ(defense_fields()),
        forall|i: int|
            0 <= i < defense_fields().len() ==> ((#[trigger] defense_fields()[i]).required <==> defense_fields()[i].key
                != "evidence"@ && defense_fields()[i].key != "date"@),
{
    reveal_strlit("court");
    reveal_strlit("date");
    reveal_strlit("defense_requests");
    reveal_strlit("evidence");
    reveal_strlit("facts");
    reveal_strlit("objections");
    reveal_strlit("parties");
    reveal_strlit("signature");
    let f = defense_fields();
    assert(f[0].key.len() == 7 && f[0].key[0] == 'p');
    assert(f[1].key.len() == 16 && f[1].key[0] == 'd');
    assert(f[2].key.len() == 10 && f[2].key[0] == 'o');
    assert(f[3].key.len() == 5 && f[3].key[0] == 'f');
    assert(f[4].key.len() == 8 && f[4].key[0] == 'e');
    assert(f[5].key.len() == 5 && f[5].key[0] == 'c');
    assert(f[6].key.len() == 9 && f[6].key[0] == 's');
    assert(f[7].key.len() == 4 && f[7].key[0] == 'd');
}

proof fn lemma_application_elements()
    ensures
        keys_differ(application_fields()),
        forall|i: int|
            0 <= i < application_fields().len() ==> ((#[trigger] application_fields()[i]).required <==> application_fields()[i].key
                != "evidence"@ && application_fields()[i].key != "date"@),
{
    reveal_strlit("applications");
    reveal_strlit("authority");
    reveal_strlit("date");
    reveal_strlit("evidence");
    reveal_strlit("facts");
    reveal_strlit("parties");
    reveal_strlit("signature");
    let f = application_fields();
    assert(f[0].key.len() == 7 && f[0].key[0] == 'p');
    assert(f[1].key.len() == 12 && f[1].key[0] == 'a');
    assert(f[2].key.len() == 5 && f[2].key[0] == 'f');
    assert(f[3].key.len() == 8 && f[3].key[0] == 'e');
    assert(f[4].key.len() == 9 && f[4].key[0] == 'a');
    assert(f[5].key.len() == 9 && f[5].key[0] == 's');
    assert(f[6].key.len() == 4 && f[6].key[0] == 'd');
}

proof fn lemma_statement_elements()
    ensures
        keys_differ(statement_fields()),
        forall|i: int|
            0 <= i < statement_fields().len() ==> ((#[trigger] statement_fields()[i]).required <==> statement_fields()[i].key
                != "evidence"@ && statement_fields()[i].key != "date"@),
{
    reveal_strlit("authority");
    reveal_strlit("date");
    reveal_strlit("evidence");
    reveal_strlit("facts");
    reveal_strlit("parties");
    reveal_strlit("position");
    reveal_strlit("signature");
    let f = statement_fields();
    assert(f[0].key.len() == 7 && f[0].key[0] == 'p');
    assert(f[1].key.len() == 8 && f[1].key[0] == 'p');
    assert(f[2].key.len() == 5 && f[2].key[0] == 'f');
    assert(f[3].key.len() == 8 && f[3].key[0] == 'e');
    assert(f[4].key.len() == 9 && f[4].key[0] == 'a');
    assert(f[5].key.len() == 9 && f[5].key[0] == 's');
    assert(f[6].key.len() == 4 && f[6].key[0] == 'd');
}

proof fn lemma_lending_elements()
    ensures
        keys_differ(lending_fields()),
{
    reveal_strlit("loan_delivery");
    reveal_strlit("repayment");
    reveal_strlit("interest");
    let f = lending_fields();
    assert(f[0].key.len() == 13 && f[0].key[0] == 'l');
    assert(f[1].key.len() == 9 && f[1].key[0] == 'r');
    assert(f[2].key.len() == 8 && f[2].key[0] == 'i');
}

proof fn lemma_divorce_elements()
    ensures
        keys_differ(divorce_fields()),
{
    reveal_strlit("marriage");
    reveal_strlit("children");
    reveal_strlit("property_debt");
    let f = divorce_fields();
    assert(f[0].key.len() == 8 && f[0].key[0] == 'm');
    assert(f[1].key.len() == 8 && f[1].key[0] == 'c');
    assert(f[2].key.len() == 13 && f[2].key[0] == 'p');
}

proof fn lemma_sales_elements()
    ensures
        keys_differ(sales_fields()),
{
    reveal_strlit("contract_subject");
    reveal_strlit("delivery_acceptance");
    reveal_strlit("payment_default");
    let f = sales_fields();
    assert(f[0].key.len() == 16 && f[0].key[0] == 'c');
    assert(f[1].key.len() == 19 && f[1].key[0] == 'd');
    assert(f[2].key.len() == 15 && f[2].key[0] == 'p');
}

proof fn lemma_property_service_elements()
    ensures
        keys_differ(property_service_fields()),
{
    reveal_strlit("service_basis");
    reveal_strlit("fee_standard");
    reveal_strlit("arrears");
    let f = property_service_fields();
    assert(f[0].key.len() == 13 && f[0].key[0] == 's');
    assert(f[1].key.len() == 12 && f[1].key[0] == 'f');
    assert(f[2].key.len() == 7 && f[2].key[0] == 'a');
}

proof fn lemma_labor_elements()
    ensures
        keys_differ(labor_fields()),
{
    reveal_strlit("employment");
    reveal_strlit("employment_dispute");
    reveal_strlit("arbitration");
    let f = labor_fields();
    assert(f[0].key.len() == 10 && f[0].key[0] == 'e');
    assert(f[1].key.len() == 18 && f[1].key[0] == 'e');
    assert(f[2].key.len() == 11 && f[2].key[0] == 'a');
}

proof fn lemma_traffic_elements()
    ensures
        keys_differ(traffic_fields()),
{
    reveal_strlit("accident_liability");
    reveal_strlit("injury_loss");
    reveal_strlit("insurance");
    let f = traffic_fields();
    assert(f[0].key.len() == 18 && f[0].key[0] == 'a');
    assert(f[1].key.len() == 11 && f[1].key[0] == 'i');
    assert(f[2].key.len() == 9 && f[2].key[0] == 'i');
}

proof fn lemma_evidence_list_elements()
    ensures
        keys_differ(evidence_list_fields()),
{
    reveal_strlit("case_info");
    reveal_strlit("evidence_items");
    reveal_strlit("proof_purpose");
    reveal_strlit("submission");
    reveal_strlit("signature");
    reveal_strlit("date");
    let f = evidence_list_fields();
    assert(f[0].key.len() == 9 && f[0].key[0] == 'c');
    assert(f[1].key.len() == 14 && f[1].key[0] == 'e');
    assert(f[2].key.len() == 13 && f[2].key[0] == 'p');
    assert(f[3].key.len() == 10 && f[3].key[0] == 's');
    assert(f[4].key.len() == 9 && f[4].key[0] == 's');
    assert(f[5].key.len() == 4 && f[5].key[0] == 'd');
}

proof fn lemma_attorney_elements()
    ensures
        keys_differ(attorney_fields()),
{
    reveal_strlit("principal");
    reveal_strlit("agent");
    reveal_strlit("matter");
    reveal_strlit("authority_scope");
    reveal_strlit("term");
    reveal_strlit("signature");
    reveal_strlit("date");
    let f = attorney_fields();
    assert(f[0].key.len() == 9 && f[0].key[0] == 'p');
    assert(f[1].key.len() == 5 && f[1].key[0] == 'a');
    assert(f[2].key.len() == 6 && f[2].key[0] == 'm');
    assert(f[3].key.len() == 15 && f[3].key[0] == 'a');
    assert(f[4].key.len() == 4 && f[4].key[0] == 't');
    assert(f[5].key.len() == 9 && f[5].key[0] == 's');
    assert(f[6].key.len() == 4 && f[6].key[0] == 'd');
}

proof fn lemma_arbitration_elements()
    ensures
        keys_differ(arbitration_fields()),
        forall|i: int|
            0 <= i < arbitration_fields().len() ==> ((#[trigger] arbitration_fields()[i]).required <==> arbitration_fields()[i].key
                != "evidence"@ && arbitration_fields()[i].key != "date"@),
{
    reveal_strlit("applications");
    reveal_strlit("arbitration_basis");
    reveal_strlit("authority");
    reveal_strlit("date");
    reveal_strlit("evidence");
    reveal_strlit("facts");
    reveal_strlit("parties");
    reveal_strlit("signature");
    let f = arbitration_fields();
    assert(f[0].key.len() == 7 && f[0].key[0] == 'p');
    assert(f[1].key.len() == 12 && f[1].key[0] == 'a');
    assert(f[2].key.len() == 17 && f[2].key[0] == 'a');
    assert(f[3].key.len() == 5 && f[3].key[0] == 'f');
    assert(f[4].key.len() == 8 && f[4].key[0] == 'e');
    assert(f[5].key.len() == 9 && f[5].key[0] == 'a');
    assert(f[6].key.len() == 9 && f[6].key[0] == 's');
    assert(f[7].key.len() == 4 && f[7].key[0] == 'd');
}

proof fn lemma_reconsideration_elements()
    ensures
        keys_differ(reconsideration_fields()),
        forall|i: int|
            0 <= i < reconsideration_fields().len() ==> ((#[trigger] reconsideration_fields()[i]).required <==> reconsideration_fields()[i].key
                != "evidence"@ && reconsideration_fields()[i].key != "date"@),
{
    reveal_strlit("administrative_action");
    reveal_strlit("applications");
    reveal_strlit("authority");
    reveal_strlit("date");
    reveal_strlit("evidence");
    reveal_strlit("facts");
    reveal_strlit("parties");
    reveal_strlit("signature");
    let f = reconsideration_fields();
    assert(f[0].key.len() == 7 && f[0].key[0] == 'p');
    assert(f[1].key.len() == 12 && f[1].key[0] == 'a');
    assert(f[2].key.len() == 21 && f[2].key[0] == 'a');
    assert(f[3].key.len() == 5 && f[3].key[0] == 'f');
    assert(f[4].key.len() == 8 && f[4].key[0] == 'e');
    assert(f[5].key.len() == 9 && f[5].key[0] == 'a');
    assert(f[6].key.len() == 9 && f[6].key[0] == 's');
    assert(f[7].key.len() == 4 && f[7].key[0] == 'd');
}

proof fn lemma_third_party_elements()
    ensures
        keys_differ(third_party_fields()),
        forall|i: int|
            0 <= i < third_party_fields().len() ==> ((#[trigger] third_party_fields()[i]).required <==> third_party_fields()[i].key
                != "evidence"@ && third_party_fields()[i].key != "date"@),
{
    reveal_strlit("authority");
    reveal_strlit("date");
    reveal_strlit("disputed_decision");
    reveal_strlit("evidence");
    reveal_strlit("facts");
    reveal_strlit("parties");
    reveal_strlit("position");
    reveal_strlit("signature");
    let f = third_party_fields();
    assert(f[0].key.len() == 7 && f[0].key[0] == 'p');
    assert(f[1].key.len() == 17 && f[1].key[0] == 'd');
    assert(f[2].key.len() == 8 && f[2].key[0] == 'p');
    assert(f[3].key.len() == 5 && f[3].key[0] == 'f');
    assert(f[4].key.len() == 8 && f[4].key[0] == 'e');
    assert(f[5].key.len() == 9 && f[5].key[0] == 'a');
    assert(f[6].key.len() == 9 && f[6].key[0] == 's');
    assert(f[7].key.len() == 4 && f[7].key[0] == 'd');
}

/// In the documents of every category the parties come first and the signature and
/// the date last. Only evidence and the date may be missing, and no two elements
/// have the same key.
pub proof fn only_evidence_and_date_may_be_missing(category: Seq<char>, i: int)
    ensures
        ({
            let f = common_of(category);
            let n = f.len() as int;
            &&& n >= 4
            &&& f[0].key == "parties"@
            &&& f[n - 4].key == "evidence"@ && f[n - 2].key == "signature"@ && f[n - 1].key
                == "date"@
            &&& 0 <= i < n ==> (f[i].required <==> f[i].key != "evidence"@ && f[i].key != "date"@)
            &&& keys_differ(f)
        }),
{
    lemma_complaint_elements();
    lemma_defense_elements();
    lemma_application_elements();
    lemma_statement_elements();
}

/// The elements that a cause of action brings, and those of a document with a form of
/// its own, have keys that differ; a document with a form of its own ends in the
/// signature, which must be there, and the date, which need not.
pub proof fn forms_end_in_signature_and_date(name: Seq<char>)
    ensures
        keys_differ(refined_of(name)),
        refined_of(name).len() == 0 || refined_of(name).len() == 3,
        refined_of(name).len() > 0 ==> refined_of(name)[0].required,
        special_of(name) matches Some(f) ==> keys_differ(f) && f[f.len() - 2].key == "signature"@
            && f[f.len() - 2].required && f[f.len() - 1].key == "date"@ && !f[f.len() - 1].required
            && f[0].required && f[1].required && f[2].required,
{
    lemma_lending_elements();
    lemma_divorce_elements();
    lemma_sales_elements();
    lemma_property_service_elements();
    lemma_labor_elements();
    lemma_traffic_elements();
    lemma_evidence_list_elements();
    lemma_attorney_elements();
    lemma_arbitration_elements();
    lemma_reconsideration_elements();
    lemma_third_party_elements();
}

/// A complaint asks for claims, a defense for its requests and its objections, an
/// application for what is applied for, and anything else for a position. A complaint
/// and a defense go to a court, the others to an authority.
pub proof fn categories_ask_for_their_own_elements(category: Seq<char>)
    ensures
        ({
            let f = common_of(category);
            let n = f.len() as int;
            &&& category == "起诉状"@ ==> f[1].key == "claims"@ && f[n - 3].key == "court"@
            &&& category == "答辩状"@ || category == "调解答辩意见书"@ ==> f[1].key
                == "defense_requests"@ && f[2].key == "objections"@ && f[n - 3].key == "court"@
            &&& category == "申请书"@ || category == "调解申请书"@ || category == "其他"@
                ==> f[1].key == "applications"@ && f[n - 3].key == "authority"@
            &&& category != "起诉状"@ && category != "答辩状"@ && category != "调解答辩意见书"@
                && category != "申请书"@ && category != "调解申请书"@ && category != "其他"@
                ==> f[1].key == "position"@ && f[n - 3].key == "authority"@
        }),
{
    reveal_strlit("起诉状");
    reveal_strlit("答辩状");
    reveal_strlit("调解答辩意见书");
    reveal_strlit("申请书");
    reveal_strlit("调解申请书");
    reveal_strlit("其他");
    assert("起诉状"@[0] == '起' && "答辩状"@[0] == '答' && "申请书"@[0] == '申');
    assert("起诉状"@.len() == 3 && "答辩状"@.len() == 3 && "申请书"@.len() == 3);
    assert("调解答辩意见书"@.len() == 7 && "调解申请书"@.len() == 5 && "其他"@.len() == 2);
}

} // verus!
